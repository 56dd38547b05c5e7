//! The frameworks that can run a program, their names and their order of trust.

use vstd::prelude::*;
use vstd::string::*;
use crate::text::same_text;

verus! {

/// The optional frameworks that a build is linked with.
#[derive(Debug, Clone, Copy, PartialEq, Eq, Structural)]
pub struct Features {
    pub flex: bool,
    pub tch: bool,
    pub cpu: bool,
    pub tch_raw: bool,
    pub candle: bool,
}

impl Features {
    /// The frameworks that this library itself is linked with: candle. A program that
    /// links more says so where it selects targets.
    pub open spec fn linked() -> Features {
        Features { flex: false, tch: false, cpu: false, tch_raw: false, candle: true }
    }

    pub fn enabled() -> (r: Features)
        ensures
            r == Features::linked(),
    {
        Features { flex: false, tch: false, cpu: false, tch_raw: false, candle: true }
    }
}

/// A burn backend.
#[derive(Debug, Clone, Copy, PartialEq, Eq, Structural)]
pub enum Backend {
    /// Deprecated; still where most known bugs live.
    NdArray,
    /// Pure-Rust CPU backend that replaces `NdArray`, a distinct implementation.
    Flex,
    /// LibTorch through burn's bridge.
    LibTorch,
    /// CubeCL on the CPU: the kernels of the GPU backends.
    Cpu,
}

impl Backend {
    /// All backends, the most trustworthy first.
    pub const ALL: [Backend; 4] = [
        Backend::Cpu,
        Backend::LibTorch,
        Backend::NdArray,
        Backend::Flex,
    ];

    pub open spec fn title(self) -> Seq<char> {
        match self {
            Backend::NdArray => "ndarray"@,
            Backend::Flex => "flex"@,
            Backend::LibTorch => "libtorch"@,
            Backend::Cpu => "cpu"@,
        }
    }

    /// The backend of a given name, with its aliases.
    pub open spec fn named(name: Seq<char>) -> Option<Backend> {
        if name == "ndarray"@ || name == "nd"@ {
            Some(Backend::NdArray)
        } else if name == "flex"@ {
            Some(Backend::Flex)
        } else if name == "libtorch"@ || name == "tch"@ || name == "torch"@ {
            Some(Backend::LibTorch)
        } else if name == "cpu"@ || name == "cubecl-cpu"@ {
            Some(Backend::Cpu)
        } else {
            None
        }
    }

    /// Whether a build with the given features can run this backend.
    pub open spec fn linked_in(self, features: Features) -> bool {
        match self {
            Backend::NdArray => true,
            Backend::Flex => features.flex,
            Backend::LibTorch => features.tch,
            Backend::Cpu => features.cpu,
        }
    }

    /// The backends that a build can run, in the order of trust.
    pub open spec fn usable(features: Features) -> Seq<Backend> {
        Backend::ALL@.filter(|b: Backend| b.linked_in(features))
    }

    /// The name used to select the backend and in reports.
    pub fn name(self) -> (r: &'static str)
        ensures
            r@ == self.title(),
    {
        match self {
            Backend::NdArray => "ndarray",
            Backend::Flex => "flex",
            Backend::LibTorch => "libtorch",
            Backend::Cpu => "cpu",
        }
    }

    /// The backend with the given name. Bare `cubecl` is no alias of `cpu`: other
    /// CubeCL backends would make it ambiguous.
    pub fn from_name(name: &str) -> (r: Option<Backend>)
        ensures
            r == Backend::named(name@),
    {
        if same_text(name, "ndarray") || same_text(name, "nd") {
            Some(Backend::NdArray)
        } else if same_text(name, "flex") {
            Some(Backend::Flex)
        } else if same_text(name, "libtorch") || same_text(name, "tch") || same_text(
            name,
            "torch",
        ) {
            Some(Backend::LibTorch)
        } else if same_text(name, "cpu") || same_text(name, "cubecl-cpu") {
            Some(Backend::Cpu)
        } else {
            None
        }
    }

    /// Whether a build with the given features can run this backend.
    pub fn is_linked_in(self, features: Features) -> (r: bool)
        ensures
            r == self.linked_in(features),
    {
        match self {
            Backend::NdArray => true,
            Backend::Flex => features.flex,
            Backend::LibTorch => features.tch,
            Backend::Cpu => features.cpu,
        }
    }

    /// Whether this build can run this backend.
    pub fn is_compiled_in(self) -> (r: bool)
        ensures
            r == self.linked_in(Features::linked()),
    {
        self.is_linked_in(Features::enabled())
    }

    /// The backends that a build with the given features can run, the most
    /// trustworthy first.
    pub fn available_in(features: Features) -> (r: Vec<Backend>)
        ensures
            r@ == Backend::usable(features),
    {
        let ghost pred = |b: Backend| b.linked_in(features);
        let mut found: Vec<Backend> = Vec::new();
        let mut i: usize = 0;
        assert(Backend::ALL@.take(0).filter(pred) =~= Seq::<Backend>::empty()) by {
            reveal(Seq::filter);
        }
        while i < 4
            invariant
                i <= 4,
                pred == (|b: Backend| b.linked_in(features)),
                found@ == Backend::ALL@.take(i as int).filter(pred),
            decreases 4 - i,
        {
            let backend = Backend::ALL[i];
            proof {
                reveal(Seq::filter);
                assert(Backend::ALL@.take(i + 1).drop_last() =~= Backend::ALL@.take(i as int));
                assert(Backend::ALL@.take(i + 1).last() == backend);
            }
            if backend.is_linked_in(features) {
                found.push(backend);
            }
            i = i + 1;
        }
        assert(Backend::ALL@.take(4) =~= Backend::ALL@);
        found
    }

    /// The backends that this build can run, the most trustworthy first.
    pub fn available() -> (r: Vec<Backend>)
        ensures
            r@ == Backend::usable(Features::linked()),
    {
        Backend::available_in(Features::enabled())
    }
}

/// What executes a program: burn on one of its backends, or another framework.
#[derive(Debug, Clone, Copy, PartialEq, Eq, Structural)]
pub enum Target {
    Burn(Backend),
    /// libtorch without burn in the path: the same kernels as burn's libtorch
    /// backend, but libtorch's own derivatives.
    TchRaw,
    /// candle: neither burn nor libtorch in the path.
    Candle,
}

impl Target {
    /// All targets in the order of trust. The targets without burn lead: no bug of
    /// burn can reach them.
    pub open spec fn order() -> Seq<Target> {
        seq![
            Target::TchRaw,
            Target::Candle,
            Target::Burn(Backend::Cpu),
            Target::Burn(Backend::LibTorch),
            Target::Burn(Backend::NdArray),
            Target::Burn(Backend::Flex),
        ]
    }

    /// All targets, the most trustworthy first.
    pub fn all() -> (r: [Target; 6])
        ensures
            r@ == Target::order(),
    {
        let all: [Target; 6] = [
            Target::TchRaw,
            Target::Candle,
            Target::Burn(Backend::Cpu),
            Target::Burn(Backend::LibTorch),
            Target::Burn(Backend::NdArray),
            Target::Burn(Backend::Flex),
        ];
        assert(all@ =~= Target::order());
        all
    }

    pub open spec fn title(self) -> Seq<char> {
        match self {
            Target::Burn(backend) => backend.title(),
            Target::TchRaw => "tch-raw"@,
            Target::Candle => "candle"@,
        }
    }

    /// The target of a given name, with its aliases.
    pub open spec fn named(name: Seq<char>) -> Option<Target> {
        if name == "tch-raw"@ || name == "raw-tch"@ || name == "tch_raw"@ || name == "rawtch"@ {
            Some(Target::TchRaw)
        } else if name == "candle"@ || name == "candle-core"@ {
            Some(Target::Candle)
        } else {
            match Backend::named(name) {
                Some(backend) => Some(Target::Burn(backend)),
                None => None,
            }
        }
    }

    /// Whether a build with the given features can run this target.
    pub open spec fn linked_in(self, features: Features) -> bool {
        match self {
            Target::Burn(backend) => backend.linked_in(features),
            Target::TchRaw => features.tch_raw,
            Target::Candle => features.candle,
        }
    }

    /// The targets that a build can run, in the order of trust.
    pub open spec fn usable(features: Features) -> Seq<Target> {
        Target::order().filter(|t: Target| t.linked_in(features))
    }

    /// The text of the feature that enables the target.
    pub open spec fn feature_text(self) -> Seq<char> {
        match self {
            Target::Burn(Backend::NdArray) => "ndarray (always compiled in)"@,
            Target::Burn(Backend::Flex) => "oracle-flex"@,
            Target::Burn(Backend::LibTorch) => "oracle-tch"@,
            Target::Burn(Backend::Cpu) => "oracle-cpu"@,
            Target::TchRaw => "oracle-tch-raw"@,
            Target::Candle => "oracle-candle"@,
        }
    }

    /// The name used to select the target and in reports.
    pub fn name(self) -> (r: &'static str)
        ensures
            r@ == self.title(),
    {
        match self {
            Target::Burn(backend) => backend.name(),
            Target::TchRaw => "tch-raw",
            Target::Candle => "candle",
        }
    }

    /// The target with the given name. The names of libtorch without burn are kept
    /// apart from those of burn's libtorch backend, so that the two can be run
    /// against each other.
    pub fn from_name(name: &str) -> (r: Option<Target>)
        ensures
            r == Target::named(name@),
    {
        if same_text(name, "tch-raw") || same_text(name, "raw-tch") || same_text(name, "tch_raw")
            || same_text(name, "rawtch") {
            Some(Target::TchRaw)
        } else if same_text(name, "candle") || same_text(name, "candle-core") {
            Some(Target::Candle)
        } else {
            match Backend::from_name(name) {
                Some(backend) => Some(Target::Burn(backend)),
                None => None,
            }
        }
    }

    /// Whether a build with the given features can run this target.
    pub fn is_linked_in(self, features: Features) -> (r: bool)
        ensures
            r == self.linked_in(features),
    {
        match self {
            Target::Burn(backend) => backend.is_linked_in(features),
            Target::TchRaw => features.tch_raw,
            Target::Candle => features.candle,
        }
    }

    /// Whether this build can run this target.
    pub fn is_compiled_in(self) -> (r: bool)
        ensures
            r == self.linked_in(Features::linked()),
    {
        self.is_linked_in(Features::enabled())
    }

    /// The feature that enables the target. `NdArray` has none.
    pub fn feature(self) -> (r: &'static str)
        ensures
            r@ == self.feature_text(),
    {
        match self {
            Target::Burn(Backend::NdArray) => "ndarray (always compiled in)",
            Target::Burn(Backend::Flex) => "oracle-flex",
            Target::Burn(Backend::LibTorch) => "oracle-tch",
            Target::Burn(Backend::Cpu) => "oracle-cpu",
            Target::TchRaw => "oracle-tch-raw",
            Target::Candle => "oracle-candle",
        }
    }

    /// The targets that a build with the given features can run, the most
    /// trustworthy first.
    pub fn available_in(features: Features) -> (r: Vec<Target>)
        ensures
            r@ == Target::usable(features),
    {
        let ghost pred = |t: Target| t.linked_in(features);
        let all = Target::all();
        let mut found: Vec<Target> = Vec::new();
        let mut i: usize = 0;
        assert(Target::order().take(0).filter(pred) =~= Seq::<Target>::empty()) by {
            reveal(Seq::filter);
        }
        while i < 6
            invariant
                i <= 6,
                all@ == Target::order(),
                pred == (|t: Target| t.linked_in(features)),
                found@ == Target::order().take(i as int).filter(pred),
            decreases 6 - i,
        {
            let target = all[i];
            proof {
                reveal(Seq::filter);
                assert(Target::order().take(i + 1).drop_last() =~= Target::order().take(i as int));
                assert(Target::order().take(i + 1).last() == target);
            }
            if target.is_linked_in(features) {
                found.push(target);
            }
            i = i + 1;
        }
        assert(Target::order().take(6) =~= Target::order());
        found
    }

    /// The targets that this build can run, the most trustworthy first.
    pub fn available() -> (r: Vec<Target>)
        ensures
            r@ == Target::usable(Features::linked()),
    {
        Target::available_in(Features::enabled())
    }
}

/// What tells the names apart: their lengths, and where two agree in length their
/// first characters.
proof fn reveal_names()
    ensures
        "ndarray"@.len() == 7,
        "nd"@.len() == 2,
        "flex"@.len() == 4,
        "libtorch"@.len() == 8,
        "tch"@.len() == 3,
        "torch"@.len() == 5,
        "cpu"@.len() == 3,
        "cubecl-cpu"@.len() == 10,
        "tch-raw"@.len() == 7,
        "raw-tch"@.len() == 7,
        "tch_raw"@.len() == 7,
        "rawtch"@.len() == 6,
        "candle"@.len() == 6,
        "candle-core"@.len() == 11,
        "ndarray"@[0] == 'n',
        "tch-raw"@[0] == 't',
        "raw-tch"@[0] == 'r',
        "tch_raw"@[0] == 't',
        "tch"@[0] == 't',
        "cpu"@[0] == 'c',
        "rawtch"@[0] == 'r',
        "candle"@[0] == 'c',
{
    reveal_strlit("ndarray");
    reveal_strlit("nd");
    reveal_strlit("flex");
    reveal_strlit("libtorch");
    reveal_strlit("tch");
    reveal_strlit("torch");
    reveal_strlit("cpu");
    reveal_strlit("cubecl-cpu");
    reveal_strlit("tch-raw");
    reveal_strlit("raw-tch");
    reveal_strlit("tch_raw");
    reveal_strlit("rawtch");
    reveal_strlit("candle");
    reveal_strlit("candle-core");
}

/// The name of a backend selects that backend.
pub proof fn backend_names_round_trip(backend: Backend)
    ensures
        Backend::named(backend.title()) == Some(backend),
{
    reveal_names();
}

/// The name of a target selects that target.
pub proof fn target_names_round_trip(target: Target)
    ensures
        Target::named(target.title()) == Some(target),
{
    reveal_names();
    if let Target::Burn(backend) = target {
        backend_names_round_trip(backend);
    }
}

/// No two targets share a name.
pub proof fn target_names_are_distinct(a: Target, b: Target)
    requires
        a.title() == b.title(),
    ensures
        a == b,
{
    target_names_round_trip(a);
    target_names_round_trip(b);
}

/// No name selects both libtorch without burn, or candle, and a burn backend.
pub proof fn names_without_burn_are_no_backend_names(name: Seq<char>)
    requires
        Target::named(name) matches Some(t) && !(t is Burn),
    ensures
        Backend::named(name) is None,
{
    reveal_names();
}

/// A target without burn comes before every burn target in the order of trust.
pub proof fn targets_without_burn_lead(i: int, j: int)
    requires
        0 <= i < Target::order().len(),
        0 <= j < Target::order().len(),
        !(Target::order()[i] is Burn),
        Target::order()[j] is Burn,
    ensures
        i < j,
{
}

/// The order of trust holds the two targets without burn, and after them the burn
/// backends in their own order of trust.
pub proof fn backend_order_is_kept(i: int)
    requires
        0 <= i < Backend::ALL@.len(),
    ensures
        Target::order().len() == Backend::ALL@.len() + 2,
        Target::order()[i + 2] == Target::Burn(Backend::ALL@[i]),
{
}

/// Every target, and so every backend, has its place in the order of trust, and
/// only one.
pub proof fn every_target_has_one_place(target: Target)
    ensures
        Target::order().contains(target),
        Target::order().no_duplicates(),
{
    let order = Target::order();
    assert(order[0] == Target::TchRaw);
    assert(order[1] == Target::Candle);
    assert(order[2] == Target::Burn(Backend::Cpu));
    assert(order[3] == Target::Burn(Backend::LibTorch));
    assert(order[4] == Target::Burn(Backend::NdArray));
    assert(order[5] == Target::Burn(Backend::Flex));
    if let Target::Burn(backend) = target {
        match backend {
            Backend::Cpu => {},
            Backend::LibTorch => {},
            Backend::NdArray => {},
            Backend::Flex => {},
        }
    }
}

/// A build can run exactly the targets it is linked with, and `NdArray` always.
pub proof fn usable_targets_are_the_linked_ones(features: Features, target: Target)
    ensures
        Target::usable(features).contains(target) <==> target.linked_in(features),
        Target::usable(features).contains(Target::Burn(Backend::NdArray)),
{
    broadcast use vstd::seq_lib::group_filter_ensures;

    let order = Target::order();
    let pred = |t: Target| t.linked_in(features);
    every_target_has_one_place(target);
    every_target_has_one_place(Target::Burn(Backend::NdArray));
    assert(pred(Target::Burn(Backend::NdArray)));
    if target.linked_in(features) {
        assert(pred(target));
        let i = order.index_of(target);
        assert(order[i] == target);
    }
    let j = order.index_of(Target::Burn(Backend::NdArray));
    assert(order[j] == Target::Burn(Backend::NdArray));
}

/// The same of the backends.
pub proof fn usable_backends_are_the_linked_ones(features: Features, backend: Backend)
    ensures
        Backend::usable(features).contains(backend) <==> backend.linked_in(features),
        Backend::usable(features).contains(Backend::NdArray),
{
    broadcast use vstd::seq_lib::group_filter_ensures;

    let order = Backend::ALL@;
    let pred = |b: Backend| b.linked_in(features);
    assert(order[0] == Backend::Cpu);
    assert(order[1] == Backend::LibTorch);
    assert(order[2] == Backend::NdArray);
    assert(order[3] == Backend::Flex);
    assert(pred(order[2]));
    let i = match backend {
        Backend::Cpu => 0,
        Backend::LibTorch => 1,
        Backend::NdArray => 2,
        Backend::Flex => 3int,
    };
    assert(order[i] == backend);
    if backend.linked_in(features) {
        assert(pred(order[i]));
    }
}

proof fn first_kept<A>(s: Seq<A>, pred: spec_fn(A) -> bool, i: int)
    requires
        0 <= i < s.len(),
        pred(s[i]),
        forall|j: int| 0 <= j < i ==> !pred(#[trigger] s[j]),
    ensures
        s.filter(pred).len() > 0,
        s.filter(pred)[0] == s[i],
    decreases s.len(),
{
    reveal(Seq::filter);
    if i < s.len() - 1 {
        first_kept(s.drop_last(), pred, i);
    } else {
        s.drop_last().lemma_all_neg_filter_empty(pred);
    }
}

/// The first usable target is the most trustworthy one that the build is linked
/// with.
pub proof fn reference_is_the_most_trusted(features: Features, i: int)
    requires
        0 <= i < Target::order().len(),
        Target::order()[i].linked_in(features),
        forall|j: int| 0 <= j < i ==> !(#[trigger] Target::order()[j]).linked_in(features),
    ensures
        Target::usable(features).len() > 0,
        Target::usable(features)[0] == Target::order()[i],
{
    first_kept(Target::order(), |t: Target| t.linked_in(features), i);
}

proof fn filter_of_burn_targets(backends: Seq<Backend>, features: Features)
    ensures
        backends.map_values(|b: Backend| Target::Burn(b)).filter(
            |t: Target| t.linked_in(features),
        ) == backends.filter(|b: Backend| b.linked_in(features)).map_values(
            |b: Backend| Target::Burn(b),
        ),
    decreases backends.len(),
{
    reveal(Seq::filter);
    let burn = |b: Backend| Target::Burn(b);
    let targets = backends.map_values(burn);
    if backends.len() > 0 {
        filter_of_burn_targets(backends.drop_last(), features);
        assert(targets.drop_last() =~= backends.drop_last().map_values(burn));
        assert(targets.last() == Target::Burn(backends.last()));
    }
    assert(targets.filter(|t: Target| t.linked_in(features)) =~= backends.filter(
        |b: Backend| b.linked_in(features),
    ).map_values(burn));
}

/// A filter that lets everything pass changes nothing.
proof fn every_kept<A>(s: Seq<A>, pred: spec_fn(A) -> bool)
    requires
        forall|i: int| 0 <= i < s.len() ==> pred(#[trigger] s[i]),
    ensures
        s.filter(pred) == s,
    decreases s.len(),
{
    reveal(Seq::filter);
    if s.len() > 0 {
        every_kept(s.drop_last(), pred);
        assert(s.drop_last().push(s.last()) =~= s);
    } else {
        assert(s.filter(pred) =~= s);
    }
}

/// What is left of distinct elements is distinct.
proof fn filter_keeps_distinct<A>(s: Seq<A>, pred: spec_fn(A) -> bool)
    requires
        s.no_duplicates(),
    ensures
        s.filter(pred).no_duplicates(),
    decreases s.len(),
{
    broadcast use vstd::seq_lib::group_filter_ensures;

    reveal(Seq::filter);
    if s.len() > 0 {
        let before = s.drop_last();
        filter_keeps_distinct(before, pred);
        let kept = before.filter(pred);
        assert forall|i: int| 0 <= i < kept.len() implies #[trigger] kept[i] != s.last() by {
            kept_is_contained(before, pred, i);
        }
    }
}

proof fn kept_is_contained<A>(s: Seq<A>, pred: spec_fn(A) -> bool, i: int)
    requires
        0 <= i < s.filter(pred).len(),
    ensures
        exists|j: int| 0 <= j < s.len() && #[trigger] s[j] == s.filter(pred)[i],
    decreases s.len(),
{
    reveal(Seq::filter);
    if s.len() > 0 {
        let before = s.drop_last();
        if i < before.filter(pred).len() {
            kept_is_contained(before, pred, i);
            let j = choose|j: int|
                0 <= j < before.len() && #[trigger] before[j] == before.filter(pred)[i];
            assert(s[j] == s.filter(pred)[i]);
        } else {
            assert(s[s.len() - 1] == s.filter(pred)[i]);
        }
    }
}

/// The targets that a build can run are the linked ones without burn, in the order of
/// trust, followed by the backends that the same build can run, in theirs. Each is there
/// once, so no burn target comes before one without burn, and what is left without the
/// latter is the list of backends.
#[verifier::rlimit(40)]
pub proof fn usable_targets_end_with_the_usable_backends(features: Features)
    ensures
        Target::usable(features) == Target::order().filter(
            |t: Target| !(t is Burn) && t.linked_in(features),
        ) + Backend::usable(features).map_values(|b: Backend| Target::Burn(b)),
        Target::usable(features).filter(|t: Target| t is Burn) == Backend::usable(
            features,
        ).map_values(|b: Backend| Target::Burn(b)),
        Target::usable(features).no_duplicates(),
        forall|i: int, j: int|
            0 <= i < j < Target::usable(features).len() ==> ((#[trigger] Target::usable(
                features,
            )[i]) is Burn ==> (#[trigger] Target::usable(features)[j]) is Burn),
{
    broadcast use vstd::seq_lib::group_filter_ensures;

    let linked = |t: Target| t.linked_in(features);
    let outside = |t: Target| !(t is Burn) && t.linked_in(features);
    let burn = |b: Backend| Target::Burn(b);
    let is_burn = |t: Target| t is Burn;
    let lead = seq![Target::TchRaw, Target::Candle];
    let rest = Backend::ALL@.map_values(burn);
    let order = Target::order();
    let backends = Backend::usable(features).map_values(burn);
    assert(order =~= lead + rest);
    Seq::filter_distributes_over_add(lead, rest, linked);
    Seq::filter_distributes_over_add(lead, rest, outside);
    filter_of_burn_targets(Backend::ALL@, features);
    assert(rest.filter(outside).len() == 0) by {
        rest.lemma_all_neg_filter_empty(outside);
    }
    assert(lead.filter(linked) =~= lead.filter(outside)) by {
        reveal_with_fuel(Seq::filter, 3);
        assert(lead.drop_last() =~= seq![Target::TchRaw]);
        assert(lead.drop_last().drop_last() =~= Seq::<Target>::empty());
    }
    assert(order.filter(outside) =~= lead.filter(linked));
    let front = order.filter(outside);
    let all = Target::usable(features);
    assert(all =~= front + backends);
    assert(all.filter(is_burn) == backends) by {
        Seq::filter_distributes_over_add(front, backends, is_burn);
        assert(front.all(|t: Target| !is_burn(t))) by {
            assert forall|i: int| 0 <= i < front.len() implies !is_burn(#[trigger] front[i]) by {
                order.lemma_filter_pred(outside, i);
            }
        }
        front.lemma_all_neg_filter_empty(is_burn);
        every_kept(backends, is_burn);
        assert(front.filter(is_burn) + backends =~= backends);
    }
    every_target_has_one_place(Target::Candle);
    filter_keeps_distinct(order, linked);
    assert forall|i: int, j: int|
        0 <= i < j < all.len() && all[i] is Burn implies all[j] is Burn by {
        if i < front.len() {
            order.lemma_filter_pred(outside, i);
        }
    }
}

/// Which names select which target: its own name and its aliases, and no other text selects
/// anything. Each target answers to its names alone.
pub proof fn names_select_their_targets(name: Seq<char>)
    ensures
        Target::named(name) == Some(Target::TchRaw) <==> name == "tch-raw"@ || name == "raw-tch"@
            || name == "tch_raw"@ || name == "rawtch"@,
        Target::named(name) == Some(Target::Candle) <==> name == "candle"@ || name
            == "candle-core"@,
        Target::named(name) == Some(Target::Burn(Backend::NdArray)) <==> name == "ndarray"@ || name
            == "nd"@,
        Target::named(name) == Some(Target::Burn(Backend::Flex)) <==> name == "flex"@,
        Target::named(name) == Some(Target::Burn(Backend::LibTorch)) <==> name == "libtorch"@
            || name == "tch"@ || name == "torch"@,
        Target::named(name) == Some(Target::Burn(Backend::Cpu)) <==> name == "cpu"@ || name
            == "cubecl-cpu"@,
        forall|backend: Backend| #[trigger]
            Backend::named(name) == Some(backend) <==> Target::named(name) == Some(
                Target::Burn(backend),
            ),
{
    reveal_names();
}

/// Under which name each target is reported.
pub proof fn targets_are_reported_by_name(target: Target)
    ensures
        target.title() == match target {
            Target::TchRaw => "tch-raw"@,
            Target::Candle => "candle"@,
            Target::Burn(Backend::NdArray) => "ndarray"@,
            Target::Burn(Backend::Flex) => "flex"@,
            Target::Burn(Backend::LibTorch) => "libtorch"@,
            Target::Burn(Backend::Cpu) => "cpu"@,
        },
        target matches Target::Burn(backend) ==> backend.title() == target.title(),
{
}

/// Each feature of a build links one target and no other, and `NdArray` needs none.
pub proof fn each_feature_links_its_own_target(features: Features)
    ensures
        Target::TchRaw.linked_in(features) <==> features.tch_raw,
        Target::Candle.linked_in(features) <==> features.candle,
        Target::Burn(Backend::Flex).linked_in(features) <==> features.flex,
        Target::Burn(Backend::LibTorch).linked_in(features) <==> features.tch,
        Target::Burn(Backend::Cpu).linked_in(features) <==> features.cpu,
        Target::Burn(Backend::NdArray).linked_in(features),
        forall|backend: Backend| #[trigger]
            backend.linked_in(features) <==> Target::Burn(backend).linked_in(features),
{
}

/// A target that is not linked is enabled by a feature of its own, named after it: no two
/// targets share one.
pub proof fn features_are_named_after_their_targets(target: Target, other: Target)
    ensures
        !(target == Target::Burn(Backend::NdArray)) && target != Target::Burn(Backend::LibTorch)
            ==> target.feature_text() == "oracle-"@ + target.title(),
        target == Target::Burn(Backend::LibTorch) ==> target.feature_text() == "oracle-"@
            + "tch"@,
        target == Target::Burn(Backend::NdArray) ==> target.feature_text()
            == "ndarray (always compiled in)"@,
        target.feature_text() == other.feature_text() ==> target == other,
{
    reveal_names();
    reveal_strlit("oracle-");
    reveal_strlit("oracle-flex");
    reveal_strlit("oracle-tch");
    reveal_strlit("oracle-cpu");
    reveal_strlit("oracle-tch-raw");
    reveal_strlit("oracle-candle");
    reveal_strlit("flex");
    reveal_strlit("tch");
    reveal_strlit("cpu");
    reveal_strlit("tch-raw");
    reveal_strlit("candle");
    reveal_strlit("ndarray (always compiled in)");
    assert("oracle-flex"@ =~= "oracle-"@ + "flex"@);
    assert("oracle-tch"@ =~= "oracle-"@ + "tch"@);
    assert("oracle-cpu"@ =~= "oracle-"@ + "cpu"@);
    assert("oracle-tch-raw"@ =~= "oracle-"@ + "tch-raw"@);
    assert("oracle-candle"@ =~= "oracle-"@ + "candle"@);
    assert("oracle-tch"@[7] == 't');
    assert("oracle-cpu"@[7] == 'c');
    assert("oracle-flex"@.len() == 11);
    assert("oracle-tch"@.len() == 10);
    assert("oracle-cpu"@.len() == 10);
    assert("oracle-tch-raw"@.len() == 14);
    assert("oracle-candle"@.len() == 13);
    assert("ndarray (always compiled in)"@.len() == 28);
}

/// The order of trust: libtorch without burn, candle, and then burn on CubeCL, on libtorch,
/// on `NdArray` and on `Flex`. The earlier of two usable targets is the more trusted one.
pub proof fn the_order_of_trust(features: Features, i: int, j: int)
    requires
        0 <= i < j < Target::usable(features).len(),
    ensures
        Target::order().len() == 6,
        Target::order()[0] == Target::TchRaw,
        Target::order()[1] == Target::Candle,
        Target::order()[2] == Target::Burn(Backend::Cpu),
        Target::order()[3] == Target::Burn(Backend::LibTorch),
        Target::order()[4] == Target::Burn(Backend::NdArray),
        Target::order()[5] == Target::Burn(Backend::Flex),
        Backend::ALL@[0] == Backend::Cpu,
        Backend::ALL@[1] == Backend::LibTorch,
        Backend::ALL@[2] == Backend::NdArray,
        Backend::ALL@[3] == Backend::Flex,
        exists|p: int, q: int|
            0 <= p < q < 6 && Target::usable(features)[i] == #[trigger] Target::order()[p]
                && Target::usable(features)[j] == #[trigger] Target::order()[q],
{
    kept_in_order(Target::order(), |t: Target| t.linked_in(features), i, j);
}

proof fn kept_in_order<A>(s: Seq<A>, pred: spec_fn(A) -> bool, i: int, j: int)
    requires
        0 <= i < j < s.filter(pred).len(),
    ensures
        exists|p: int, q: int|
            0 <= p < q < s.len() && s.filter(pred)[i] == #[trigger] s[p] && s.filter(pred)[j]
                == #[trigger] s[q],
    decreases s.len(),
{
    reveal(Seq::filter);
    if s.len() > 0 {
        let before = s.drop_last();
        let kept = before.filter(pred);
        if j < kept.len() {
            kept_in_order(before, pred, i, j);
            let (p, q) = choose|p: int, q: int|
                0 <= p < q < before.len() && kept[i] == #[trigger] before[p] && kept[j]
                    == #[trigger] before[q];
            assert(s.filter(pred)[i] == s[p] && s.filter(pred)[j] == s[q]);
        } else {
            kept_is_contained(before, pred, i);
            let p = choose|p: int| 0 <= p < before.len() && #[trigger] before[p] == kept[i];
            assert(s.filter(pred)[i] == s[p] && s.filter(pred)[j] == s[s.len() - 1]);
        }
    }
}

/// The library by itself is linked with candle and no other optional framework, so that it
/// runs candle and burn on `NdArray`.
pub proof fn the_library_runs_candle_and_ndarray(target: Target)
    ensures
        target.linked_in(Features::linked()) <==> target == Target::Candle || target
            == Target::Burn(Backend::NdArray),
        Target::usable(Features::linked()) == seq![Target::Candle, Target::Burn(Backend::NdArray)],
{
    let features = Features::linked();
    let pred = |t: Target| t.linked_in(features);
    let order = Target::order();
    assert(order.filter(pred) =~= seq![Target::Candle, Target::Burn(Backend::NdArray)]) by {
        reveal_with_fuel(Seq::filter, 7);
        assert(order.drop_last() =~= seq![
            Target::TchRaw,
            Target::Candle,
            Target::Burn(Backend::Cpu),
            Target::Burn(Backend::LibTorch),
            Target::Burn(Backend::NdArray),
        ]);
        let a = order.drop_last();
        let b = a.drop_last();
        let c = b.drop_last();
        let d = c.drop_last();
        let e = d.drop_last();
        assert(b =~= seq![
            Target::TchRaw,
            Target::Candle,
            Target::Burn(Backend::Cpu),
            Target::Burn(Backend::LibTorch),
        ]);
        assert(c =~= seq![Target::TchRaw, Target::Candle, Target::Burn(Backend::Cpu)]);
        assert(d =~= seq![Target::TchRaw, Target::Candle]);
        assert(e =~= seq![Target::TchRaw]);
        assert(e.drop_last() =~= Seq::<Target>::empty());
        assert(e.filter(pred) =~= Seq::<Target>::empty());
        assert(d.filter(pred) =~= seq![Target::Candle]);
        assert(c.filter(pred) =~= seq![Target::Candle]);
        assert(b.filter(pred) =~= seq![Target::Candle]);
        assert(a.filter(pred) =~= seq![Target::Candle, Target::Burn(Backend::NdArray)]);
    }
}

} // verus!
