//! Run-time settings.

use vstd::prelude::*;
use vstd::string::*;
use crate::selection::{SelectionError, targets_from_list};
use crate::target::{Features, Target};
use crate::text::{lowercase, parse_number, same_text};

verus! {

/// What a harness does with a divergence.
#[derive(Debug, Clone, Copy, PartialEq, Eq, Structural)]
pub enum HarnessMode {
    PanicOnFirstError,
    Continuous,
}

#[derive(Debug, Clone)]
pub struct FuzzConfig {
    /// Upper bound on the number of distinct leaf tensors.
    pub max_leaves: usize,
    /// Minimum number of instructions; shorter programs are skipped.
    pub min_ops: usize,
    pub mode: HarnessMode,
    pub min_dim: usize,
    pub max_dim: usize,
    /// Targets to run and compare, the reference first.
    pub targets: Vec<Target>,
}

/// The values of the environment variables that hold settings, where they are set.
#[derive(Debug)]
pub struct EnvVars {
    /// `MAX_LEAVES`
    pub max_leaves: Option<String>,
    /// `MIN_OPS`
    pub min_ops: Option<String>,
    /// `MODE`
    pub mode: Option<String>,
    /// `FUZZ_MIN_DIM`
    pub min_dim: Option<String>,
    /// `FUZZ_MAX_DIM`
    pub max_dim: Option<String>,
    /// `BACKENDS`
    pub backends: Option<String>,
}

/// The characters of an optional string.
pub open spec fn text_of(value: Option<String>) -> Option<Seq<char>> {
    match value {
        Some(s) => Some(s@),
        None => None,
    }
}

/// The number that a variable holds, or `default` where it is unset or no number.
pub open spec fn setting(value: Option<String>, default: int) -> int {
    match value {
        Some(s) => match crate::text::number(s@) {
            Some(n) => n,
            None => default,
        },
        None => default,
    }
}

/// `n` brought into `low..=high`.
pub open spec fn clamped(n: int, low: int, high: int) -> int {
    if n < low {
        low
    } else if n > high {
        high
    } else {
        n
    }
}

/// The mode with the given name, in lower case.
pub open spec fn mode_named(name: Seq<char>) -> HarnessMode {
    if name == "continuous"@ {
        HarnessMode::Continuous
    } else {
        HarnessMode::PanicOnFirstError
    }
}

/// The mode that a variable selects: `continuous` in any case, else the default.
pub open spec fn mode_of(value: Option<String>) -> HarnessMode {
    match value {
        Some(s) => mode_named(crate::text::unicode_lowercase(s@)),
        None => HarnessMode::PanicOnFirstError,
    }
}

fn clamp(n: usize, low: usize, high: usize) -> (r: usize)
    requires
        low <= high,
    ensures
        r == clamped(n as int, low as int, high as int),
{
    if n < low {
        low
    } else if n > high {
        high
    } else {
        n
    }
}

fn read_setting(value: &Option<String>, default: usize) -> (r: usize)
    ensures
        r == setting(*value, default as int),
{
    match value {
        Some(s) => match parse_number(s.as_str()) {
            Some(n) => n,
            None => default,
        },
        None => default,
    }
}

impl HarnessMode {
    /// The mode with the given name, in lower case.
    pub fn from_name(name: &str) -> (r: HarnessMode)
        ensures
            r == mode_named(name@),
    {
        if same_text(name, "continuous") {
            HarnessMode::Continuous
        } else {
            HarnessMode::PanicOnFirstError
        }
    }

    /// The mode that the value of `MODE` selects.
    pub fn from_env(value: &Option<String>) -> (r: HarnessMode)
        ensures
            r == mode_of(*value),
            *value matches Some(s) ==> vstd::utf8::is_ascii_chars(s@) ==> r == mode_named(
                s@.map_values(|c: char| crate::text::ascii_lower(c)),
            ),
    {
        match value {
            Some(s) => HarnessMode::from_name(lowercase(s.as_str()).as_str()),
            None => HarnessMode::PanicOnFirstError,
        }
    }
}

impl Default for FuzzConfig {
    fn default() -> (r: FuzzConfig)
        ensures
            r.max_leaves == 4,
            r.min_ops == 0,
            r.mode == HarnessMode::PanicOnFirstError,
            r.min_dim == 1,
            r.max_dim == 16,
            r.targets@ == Target::usable(Features::linked()),
            r.is_default(),
    {
        FuzzConfig {
            max_leaves: 4,
            min_ops: 0,
            mode: HarnessMode::PanicOnFirstError,
            min_dim: 1,
            max_dim: 16,
            targets: Target::available(),
        }
    }
}

impl FuzzConfig {
    /// The settings where nothing is set.
    pub open spec fn is_default(self) -> bool {
        &&& self.max_leaves == 4
        &&& self.min_ops == 0
        &&& self.mode == HarnessMode::PanicOnFirstError
        &&& self.min_dim == 1
        &&& self.max_dim == 16
        &&& self.targets@ == Target::usable(Features::linked())
    }

    /// Settings that are in their ranges.
    pub open spec fn in_range(self) -> bool {
        &&& 1 <= self.max_leaves <= 8
        &&& 1 <= self.min_dim <= self.max_dim <= 4096
    }

    /// Whether `r` is what the environment variables describe for a build with the
    /// given features. Numbers out of range are brought into it, and what is no number
    /// counts as unset; a list of targets that cannot be honoured is an error.
    pub open spec fn is_read_from(
        r: Result<FuzzConfig, SelectionError>,
        env: EnvVars,
        features: Features,
    ) -> bool {
        let targets = crate::selection::requested(text_of(env.backends), features);
        match r {
            Ok(config) => {
                &&& config.max_leaves == clamped(setting(env.max_leaves, 4), 1, 8)
                &&& config.min_ops == setting(env.min_ops, 0)
                &&& config.mode == mode_of(env.mode)
                &&& config.min_dim == clamped(setting(env.min_dim, 1), 1, 4096)
                &&& config.max_dim == clamped(
                    setting(env.max_dim, 16),
                    config.min_dim as int,
                    4096,
                )
                &&& targets == Ok::<Seq<Target>, crate::selection::Refusal>(config.targets@)
                &&& config.in_range()
            },
            Err(error) => targets == Err::<Seq<Target>, crate::selection::Refusal>(error@),
        }
    }

    /// Whether `r` has the mode and the targets, or the refusal, that variables without
    /// non-ASCII characters describe.
    pub open spec fn is_read_from_ascii(
        r: Result<FuzzConfig, SelectionError>,
        env: EnvVars,
        features: Features,
    ) -> bool {
        &&& env.mode matches Some(s) ==> vstd::utf8::is_ascii_chars(s@) && r is Ok ==> r->Ok_0.mode
            == mode_named(s@.map_values(|c: char| crate::text::ascii_lower(c)))
        &&& env.backends matches Some(list) ==> vstd::utf8::is_ascii_chars(list@)
            && !crate::selection::asks_for_all(list@) ==> {
            let targets = crate::selection::selection(
                crate::selection::listed_ascii_names(list@),
                features,
            );
            match r {
                Ok(config) => targets == Ok::<Seq<Target>, crate::selection::Refusal>(
                    config.targets@,
                ),
                Err(error) => targets == Err::<Seq<Target>, crate::selection::Refusal>(error@),
            }
        }
    }

    /// The settings that the environment variables describe for a build with the given
    /// features.
    pub fn from_env_in(env: &EnvVars, features: Features) -> (r: Result<
        FuzzConfig,
        SelectionError,
    >)
        ensures
            FuzzConfig::is_read_from(r, *env, features),
            FuzzConfig::is_read_from_ascii(r, *env, features),
    {
        let max_leaves: usize = clamp(read_setting(&env.max_leaves, 4), 1, 8);
        let min_ops: usize = read_setting(&env.min_ops, 0);
        let mode = HarnessMode::from_env(&env.mode);
        let min_dim: usize = clamp(read_setting(&env.min_dim, 1), 1, 4096);
        let max_dim: usize = clamp(read_setting(&env.max_dim, 16), min_dim, 4096);
        let selected = match &env.backends {
            Some(list) => targets_from_list(Some(list.as_str()), features),
            None => targets_from_list(None, features),
        };
        match selected {
            Ok(targets) => Ok(FuzzConfig { max_leaves, min_ops, mode, min_dim, max_dim, targets }),
            Err(error) => Err(error),
        }
    }

    /// The settings that the environment variables describe for this build.
    pub fn from_env(env: &EnvVars) -> (r: Result<FuzzConfig, SelectionError>)
        ensures
            FuzzConfig::is_read_from(r, *env, Features::linked()),
            FuzzConfig::is_read_from_ascii(r, *env, Features::linked()),
    {
        FuzzConfig::from_env_in(env, Features::enabled())
    }
}

/// With no variable set, the settings are those of the default.
pub proof fn unset_variables_give_the_default()
    ensures
        clamped(setting(None, 4), 1, 8) == 4,
        setting(None, 0) == 0,
        mode_of(None) == HarnessMode::PanicOnFirstError,
        clamped(setting(None, 1), 1, 4096) == 1,
        clamped(setting(None, 16), 1, 4096) == 16,
        crate::selection::requested(None, Features::linked()) == Ok::<
            Seq<Target>,
            crate::selection::Refusal,
        >(Target::usable(Features::linked())),
{
}

/// What a variable that holds a number comes to, whatever it holds: where it is unset or
/// holds no number the default counts, and a number out of range is brought to the nearer
/// end of the range. The upper bound on sides is at least the lower one.
pub proof fn numbers_are_read_and_brought_into_range(
    r: Result<FuzzConfig, SelectionError>,
    env: EnvVars,
    features: Features,
)
    requires
        FuzzConfig::is_read_from(r, env, features),
    ensures
        r matches Ok(config) ==> {
            let read = |value: Option<String>, default: int|
                if value is Some && crate::text::number(value->Some_0@) is Some {
                    crate::text::number(value->Some_0@)->Some_0
                } else {
                    default
                };
            let leaves = read(env.max_leaves, 4);
            let low = read(env.min_dim, 1);
            let high = read(env.max_dim, 16);
            &&& 1 <= config.max_leaves <= 8
            &&& 1 <= leaves <= 8 ==> config.max_leaves == leaves
            &&& leaves < 1 ==> config.max_leaves == 1
            &&& leaves > 8 ==> config.max_leaves == 8
            &&& config.min_ops == read(env.min_ops, 0)
            &&& 1 <= config.min_dim <= config.max_dim <= 4096
            &&& 1 <= low <= 4096 ==> config.min_dim == low
            &&& low < 1 ==> config.min_dim == 1
            &&& low > 4096 ==> config.min_dim == 4096
            &&& config.min_dim <= high <= 4096 ==> config.max_dim == high
            &&& high < config.min_dim ==> config.max_dim == config.min_dim
            &&& high > 4096 ==> config.max_dim == 4096
        },
{
}

/// The mode is the continuous one exactly if the variable is set to the word `continuous`,
/// in any case; and the settings have the targets that the list of backends selects, or are
/// refused as the list is.
pub proof fn the_mode_and_the_targets_are_as_asked(
    r: Result<FuzzConfig, SelectionError>,
    env: EnvVars,
    features: Features,
)
    requires
        FuzzConfig::is_read_from(r, env, features),
    ensures
        r matches Ok(config) ==> (config.mode == HarnessMode::Continuous <==> env.mode is Some
            && crate::text::unicode_lowercase(env.mode->Some_0@) == "continuous"@),
        ({
            let targets = match env.backends {
                None => crate::selection::requested(None, features),
                Some(list) => crate::selection::requested(Some(list@), features),
            };
            match r {
                Ok(config) => targets is Ok && targets->Ok_0 == config.targets@,
                Err(error) => targets is Err && targets->Err_0 == error@,
            }
        }),
{
}

/// The continuous mode is selected by one name alone; any other name is that of the mode
/// that stops at the first error.
pub proof fn one_name_selects_the_continuous_mode(name: Seq<char>)
    ensures
        mode_named(name) == HarnessMode::Continuous <==> name == "continuous"@,
        mode_named(name) == HarnessMode::PanicOnFirstError <==> name != "continuous"@,
{
}

/// The default is what is read where no variable is set: up to four leaves, any number of
/// instructions, sides from 1 to 16, stopping at the first error, and every target of the
/// build. It is in range.
pub proof fn the_default_is_what_unset_variables_give(
    default: FuzzConfig,
    config: FuzzConfig,
    env: EnvVars,
)
    requires
        default.is_default(),
        env.max_leaves is None,
        env.min_ops is None,
        env.mode is None,
        env.min_dim is None,
        env.max_dim is None,
        env.backends is None,
        FuzzConfig::is_read_from(Ok(config), env, Features::linked()),
    ensures
        default.in_range(),
        default.max_leaves == config.max_leaves && config.max_leaves == 4,
        default.min_ops == config.min_ops && config.min_ops == 0,
        default.mode == config.mode && config.mode == HarnessMode::PanicOnFirstError,
        default.min_dim == config.min_dim && config.min_dim == 1,
        default.max_dim == config.max_dim && config.max_dim == 16,
        default.targets@ == config.targets@ && config.targets@ == Target::usable(
            Features::linked(),
        ),
{
}

} // verus!
