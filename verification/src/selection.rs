//! Choosing the targets to run from a comma-separated list of names.

use vstd::prelude::*;
use vstd::string::*;
use crate::target::{Features, Target};
use crate::text::{chars_of, debug, lowercase, same_text_but_for_case, trim, trim_bounds};

verus! {

/// Why a list of names selects nothing.
#[derive(Debug)]
pub enum SelectionError {
    /// A name that is no target's.
    Unknown { name: String },
    /// A name of a target that the build is not linked with.
    Unavailable { name: String, target: Target },
    /// No name at all.
    Nothing,
}

/// The reason as a mathematical value.
pub enum Refusal {
    Unknown(Seq<char>),
    Unavailable(Seq<char>, Target),
    Nothing,
}

impl View for SelectionError {
    type V = Refusal;

    open spec fn view(&self) -> Refusal {
        match *self {
            SelectionError::Unknown { name } => Refusal::Unknown(name@),
            SelectionError::Unavailable { name, target } => Refusal::Unavailable(name@, target),
            SelectionError::Nothing => Refusal::Nothing,
        }
    }
}

/// The targets that a list of names selects: each in the place where it is first
/// named. The first name that is unknown, or names a target that the build is not
/// linked with, refuses the list.
pub open spec fn chosen(names: Seq<Seq<char>>, features: Features) -> Result<Seq<Target>, Refusal>
    decreases names.len(),
{
    if names.len() == 0 {
        Ok(Seq::empty())
    } else {
        match chosen(names.drop_last(), features) {
            Err(refusal) => Err(refusal),
            Ok(before) => match Target::named(names.last()) {
                None => Err(Refusal::Unknown(names.last())),
                Some(target) => if !target.linked_in(features) {
                    Err(Refusal::Unavailable(names.last(), target))
                } else if before.contains(target) {
                    Ok(before)
                } else {
                    Ok(before.push(target))
                },
            },
        }
    }
}

/// The same, where a list that selects nothing is refused too.
pub open spec fn selection(names: Seq<Seq<char>>, features: Features) -> Result<
    Seq<Target>,
    Refusal,
> {
    match chosen(names, features) {
        Err(refusal) => Err(refusal),
        Ok(targets) => if targets.len() == 0 {
            Err(Refusal::Nothing)
        } else {
            Ok(targets)
        },
    }
}

/// The names in a comma-separated list: each piece without white space around it
/// and in lower case, empty pieces left out.
pub open spec fn listed_names(raw: Seq<char>) -> Seq<Seq<char>> {
    crate::text::split(raw, ',').map_values(
        |piece: Seq<char>| crate::text::unicode_lowercase(crate::text::trimmed(piece)),
    ).filter(|name: Seq<char>| name.len() > 0)
}

/// The same names, for a list without non-ASCII characters.
pub open spec fn listed_ascii_names(raw: Seq<char>) -> Seq<Seq<char>> {
    crate::text::split(raw, ',').map_values(
        |piece: Seq<char>|
            crate::text::trimmed(piece).map_values(|c: char| crate::text::ascii_lower(c)),
    ).filter(|name: Seq<char>| name.len() > 0)
}

/// Whether a list asks for every target: it is blank, or the word `all`.
pub open spec fn asks_for_all(raw: Seq<char>) -> bool {
    crate::text::trimmed(raw).len() == 0 || crate::text::same_but_for_case(
        crate::text::trimmed(raw),
        "all"@,
    )
}

/// The targets that a list selects; all usable ones if there is no list.
pub open spec fn requested(raw: Option<Seq<char>>, features: Features) -> Result<
    Seq<Target>,
    Refusal,
> {
    match raw {
        None => Ok(Target::usable(features)),
        Some(list) => if asks_for_all(list) {
            Ok(Target::usable(features))
        } else {
            selection(listed_names(list), features)
        },
    }
}

/// The views of a list of strings.
pub open spec fn views(names: Seq<String>) -> Seq<Seq<char>> {
    names.map_values(|s: String| s@)
}

/// Whether an executable outcome is the one stated.
pub open spec fn outcome_is(
    r: Result<Vec<Target>, SelectionError>,
    expected: Result<Seq<Target>, Refusal>,
) -> bool {
    match r {
        Ok(targets) => expected == Ok::<Seq<Target>, Refusal>(targets@),
        Err(error) => expected == Err::<Seq<Target>, Refusal>(error@),
    }
}

fn holds(targets: &Vec<Target>, target: Target) -> (r: bool)
    ensures
        r == targets@.contains(target),
{
    let mut i: usize = 0;
    while i < targets.len()
        invariant
            i <= targets.len(),
            forall|j: int| 0 <= j < i ==> targets@[j] != target,
        decreases targets.len() - i,
    {
        if targets[i] == target {
            return true;
        }
        i = i + 1;
    }
    false
}

proof fn refused_prefix(names: Seq<Seq<char>>, features: Features, k: int)
    requires
        0 <= k <= names.len(),
        chosen(names.take(k), features) is Err,
    ensures
        chosen(names, features) == chosen(names.take(k), features),
    decreases names.len(),
{
    if k == names.len() {
        assert(names.take(k) =~= names);
    } else {
        assert(names.drop_last().take(k) =~= names.take(k));
        refused_prefix(names.drop_last(), features, k);
    }
}

/// Select targets by name, in the order in which they are first named.
pub fn select_targets(names: &Vec<String>, features: Features) -> (r: Result<
    Vec<Target>,
    SelectionError,
>)
    ensures
        outcome_is(r, selection(views(names@), features)),
{
    let ghost all = views(names@);
    let mut selected: Vec<Target> = Vec::new();
    let mut i: usize = 0;
    while i < names.len()
        invariant
            i <= names.len(),
            all == views(names@),
            chosen(all.take(i as int), features) == Ok::<Seq<Target>, Refusal>(selected@),
        decreases names.len() - i,
    {
        proof {
            assert(all.take(i + 1).drop_last() =~= all.take(i as int));
            assert(all.take(i + 1).last() == names@[i as int]@);
        }
        match Target::from_name(names[i].as_str()) {
            None => {
                proof {
                    refused_prefix(all, features, i + 1);
                }
                return Err(SelectionError::Unknown { name: names[i].clone() });
            },
            Some(target) => {
                if !target.is_linked_in(features) {
                    proof {
                        refused_prefix(all, features, i + 1);
                    }
                    return Err(SelectionError::Unavailable { name: names[i].clone(), target });
                }
                if !holds(&selected, target) {
                    selected.push(target);
                }
            },
        }
        i = i + 1;
    }
    assert(all.take(names.len() as int) =~= all);
    if selected.len() == 0 {
        return Err(SelectionError::Nothing);
    }
    Ok(selected)
}

/// The names in a comma-separated list.
pub fn names_in(raw: &str) -> (r: Vec<String>)
    ensures
        views(r@) == listed_names(raw@),
        vstd::utf8::is_ascii_chars(raw@) ==> views(r@) == listed_ascii_names(raw@),
{
    let chars = chars_of(raw);
    let ghost low = |piece: Seq<char>|
        crate::text::unicode_lowercase(crate::text::trimmed(piece));
    let ghost ascii_low = |piece: Seq<char>|
        crate::text::trimmed(piece).map_values(|c: char| crate::text::ascii_lower(c));
    let ghost kept = |name: Seq<char>| name.len() > 0;
    let ghost mut done: Seq<Seq<char>> = Seq::empty();
    let mut names: Vec<String> = Vec::new();
    let mut start: usize = 0;
    let mut i: usize = 0;
    proof {
        reveal(Seq::filter);
        assert(views(names@) =~= done.map_values(low).filter(kept));
        assert(views(names@) =~= done.map_values(ascii_low).filter(kept));
        assert(raw@.take(0) =~= Seq::<char>::empty());
        assert(crate::text::split(raw@.take(0), ',') =~= done.push(raw@.subrange(0, 0)));
    }
    loop
        invariant_except_break
            chars@ == raw@,
            start <= i <= chars.len(),
            low == (|piece: Seq<char>|
                crate::text::unicode_lowercase(crate::text::trimmed(piece))),
            ascii_low == (|piece: Seq<char>|
                crate::text::trimmed(piece).map_values(|c: char| crate::text::ascii_lower(c))),
            kept == (|name: Seq<char>| name.len() > 0),
            crate::text::split(raw@.take(i as int), ',') == done.push(
                raw@.subrange(start as int, i as int),
            ),
            views(names@) == done.map_values(low).filter(kept),
            vstd::utf8::is_ascii_chars(raw@) ==> views(names@) == done.map_values(
                ascii_low,
            ).filter(kept),
        ensures
            views(names@) == listed_names(raw@),
            vstd::utf8::is_ascii_chars(raw@) ==> views(names@) == listed_ascii_names(raw@),
        decreases chars.len() - i + 1,
    {
        if i == chars.len() || chars[i] == ',' {
            let ghost piece = raw@.subrange(start as int, i as int);
            let (from, to) = trim_bounds(&chars, start, i);
            let name = lowercase(raw.substring_char(from, to));
            proof {
                let longer = done.push(piece);
                assert(longer.map_values(low).drop_last() =~= done.map_values(low));
                assert(longer.map_values(low).last() == name@);
                reveal(Seq::filter);
                assert(longer.map_values(low).filter(kept) == (if name@.len() > 0 {
                    done.map_values(low).filter(kept).push(name@)
                } else {
                    done.map_values(low).filter(kept)
                }));
                assert(longer.map_values(ascii_low).drop_last() =~= done.map_values(ascii_low));
                if vstd::utf8::is_ascii_chars(raw@) {
                    assert(vstd::utf8::is_ascii_chars(raw@.subrange(from as int, to as int)));
                    assert(longer.map_values(ascii_low).last() == name@);
                    assert(longer.map_values(ascii_low).filter(kept) == (if name@.len() > 0 {
                        done.map_values(ascii_low).filter(kept).push(name@)
                    } else {
                        done.map_values(ascii_low).filter(kept)
                    }));
                }
                done = longer;
            }
            let ghost shorter = names@;
            if !name.as_str().is_empty() {
                names.push(name);
                assert(views(names@) =~= views(shorter).push(name@));
            }
            if i == chars.len() {
                assert(raw@.take(i as int) =~= raw@);
                break;
            }
            start = i + 1;
        }
        proof {
            let next = raw@.take(i + 1);
            assert(next.drop_last() =~= raw@.take(i as int));
            assert(next.last() == chars@[i as int]);
            if chars@[i as int] == ',' {
                assert(raw@.subrange(i + 1, i + 1) =~= Seq::<char>::empty());
            } else {
                let before = done.push(raw@.subrange(start as int, i as int));
                assert(before.drop_last() =~= done);
                assert(raw@.subrange(start as int, i + 1) =~= raw@.subrange(
                    start as int,
                    i as int,
                ).push(chars@[i as int]));
            }
        }
        i = i + 1;
    }
    names
}

/// Select targets from a comma-separated list of names, for a build with the given
/// features. No list, a blank one, and `all` select every target the build is
/// linked with.
pub fn targets_from_list(raw: Option<&str>, features: Features) -> (r: Result<
    Vec<Target>,
    SelectionError,
>)
    ensures
        raw is None ==> outcome_is(r, requested(None, features)),
        raw matches Some(list) ==> outcome_is(r, requested(Some(list@), features)),
        raw matches Some(list) ==> vstd::utf8::is_ascii_chars(list@) && !asks_for_all(list@)
            ==> outcome_is(r, selection(listed_ascii_names(list@), features)),
{
    match raw {
        None => Ok(Target::available_in(features)),
        Some(list) => {
            let whole = trim(list);
            if whole.is_empty() || same_text_but_for_case(whole, "all") {
                return Ok(Target::available_in(features));
            }
            select_targets(&names_in(list), features)
        },
    }
}

/// Select targets from the value of `BACKENDS`, for this build. A name that is
/// unknown or not linked is an error: dropping it would feign confidence.
pub fn targets_from_env(raw: Option<&str>) -> (r: Result<Vec<Target>, SelectionError>)
    ensures
        raw is None ==> outcome_is(r, requested(None, Features::linked())),
        raw matches Some(list) ==> outcome_is(r, requested(Some(list@), Features::linked())),
        raw matches Some(list) ==> vstd::utf8::is_ascii_chars(list@) && !asks_for_all(list@)
            ==> outcome_is(r, selection(listed_ascii_names(list@), Features::linked())),
{
    targets_from_list(raw, Features::enabled())
}

/// A name between quotation marks.
pub open spec fn quoted(name: Seq<char>) -> Seq<char> {
    "\""@ + name + "\""@
}

/// The names of the first `k` targets, quoted and separated by commas.
pub open spec fn name_list(targets: Seq<Target>, k: int) -> Seq<char>
    decreases k,
{
    if k <= 0 {
        ""@
    } else if k == 1 {
        quoted(targets[0].title())
    } else {
        name_list(targets, k - 1) + ", "@ + quoted(targets[k - 1].title())
    }
}

fn quote(name: &str) -> (r: String)
    ensures
        r@ == quoted(name@),
{
    let mut s: String = "\"".to_owned();
    s.append(name);
    s.append("\"");
    s
}

fn name_list_of(targets: &Vec<Target>) -> (r: String)
    ensures
        r@ == name_list(targets@, targets@.len() as int),
{
    let mut s: String = "".to_owned();
    let mut i: usize = 0;
    while i < targets.len()
        invariant
            i <= targets.len(),
            s@ == name_list(targets@, i as int),
        decreases targets.len() - i,
    {
        let name = quote(targets[i].name());
        if i == 0 {
            s = name;
        } else {
            s.append(", ");
            s.append(name.as_str());
        }
        i = i + 1;
    }
    s
}

impl Refusal {
    /// The message for a refusal by a build with the given features, where
    /// `shown` is how the offending name is shown.
    pub open spec fn text(self, shown: Seq<char>, features: Features) -> Seq<char> {
        match self {
            Refusal::Unknown(_) => "invalid BACKENDS entry "@ + shown
                + ": expected one of ndarray, flex, libtorch, cpu, tch-raw, candle (or `all`)"@,
            Refusal::Unavailable(_, target) => "BACKENDS requested "@ + shown
                + ", which this build does not support — rebuild with --features "@
                + target.feature_text() + ". Available: ["@ + name_list(
                Target::usable(features),
                Target::usable(features).len() as int,
            ) + "]"@,
            Refusal::Nothing => "BACKENDS named no usable target"@,
        }
    }

    /// The name that is refused, if there is one.
    pub open spec fn name(self) -> Seq<char> {
        match self {
            Refusal::Unknown(name) => name,
            Refusal::Unavailable(name, _) => name,
            Refusal::Nothing => ""@,
        }
    }
}

impl SelectionError {
    /// The message, with the offending name shown as `shown`.
    pub fn message_showing(&self, shown: &str, features: Features) -> (r: String)
        ensures
            r@ == self@.text(shown@, features),
    {
        match self {
            SelectionError::Unknown { .. } => {
                let mut s: String = "invalid BACKENDS entry ".to_owned();
                s.append(shown);
                s.append(
                    ": expected one of ndarray, flex, libtorch, cpu, tch-raw, candle (or `all`)",
                );
                s
            },
            SelectionError::Unavailable { target, .. } => {
                let mut s: String = "BACKENDS requested ".to_owned();
                s.append(shown);
                s.append(", which this build does not support — rebuild with --features ");
                s.append(target.feature());
                s.append(". Available: [");
                s.append(name_list_of(&Target::available_in(features)).as_str());
                s.append("]");
                s
            },
            SelectionError::Nothing => "BACKENDS named no usable target".to_owned(),
        }
    }

    /// The message, with the offending name quoted and escaped.
    pub fn message(&self, features: Features) -> (r: String)
        ensures
            r@ == self@.text(crate::text::debug_text(self@.name()), features),
    {
        let shown: String = match self {
            SelectionError::Unknown { name } => debug(name.as_str()),
            SelectionError::Unavailable { name, .. } => debug(name.as_str()),
            SelectionError::Nothing => debug(""),
        };
        self.message_showing(shown.as_str(), features)
    }
}

/// When names are accepted, each of them names a target of the build and that
/// target is selected: nothing that was asked for is silently dropped.
pub proof fn every_name_is_selected(names: Seq<Seq<char>>, features: Features, i: int)
    requires
        0 <= i < names.len(),
        chosen(names, features) is Ok,
    ensures
        Target::named(names[i]) matches Some(target) && target.linked_in(features)
            && chosen(names, features)->Ok_0.contains(target),
    decreases names.len(),
{
    let before = chosen(names.drop_last(), features)->Ok_0;
    let after = chosen(names, features)->Ok_0;
    if i < names.len() - 1 {
        every_name_is_selected(names.drop_last(), features, i);
        let target = Target::named(names[i])->Some_0;
        let k = before.index_of(target);
        assert(before[k] == target);
        assert(after[k] == target);
    } else {
        let target = Target::named(names[i])->Some_0;
        if !before.contains(target) {
            assert(after[after.len() - 1] == target);
        }
    }
}

/// Whatever is selected was asked for, is linked, and is selected once.
pub proof fn selected_targets_were_named(names: Seq<Seq<char>>, features: Features)
    requires
        chosen(names, features) is Ok,
    ensures
        chosen(names, features)->Ok_0.no_duplicates(),
        forall|k: int|
            0 <= k < chosen(names, features)->Ok_0.len() ==> {
                let target = #[trigger] chosen(names, features)->Ok_0[k];
                target.linked_in(features) && exists|i: int|
                    0 <= i < names.len() && Target::named(#[trigger] names[i]) == Some(target)
            },
    decreases names.len(),
{
    if names.len() > 0 {
        let shorter = names.drop_last();
        selected_targets_were_named(shorter, features);
        let before = chosen(shorter, features)->Ok_0;
        let after = chosen(names, features)->Ok_0;
        assert forall|k: int| 0 <= k < after.len() implies {
            let target = #[trigger] after[k];
            target.linked_in(features) && exists|i: int|
                0 <= i < names.len() && Target::named(#[trigger] names[i]) == Some(target)
        } by {
            if k < before.len() {
                assert(after[k] == before[k]);
                let i = choose|i: int|
                    0 <= i < shorter.len() && Target::named(#[trigger] shorter[i]) == Some(
                        before[k],
                    );
                assert(names[i] == shorter[i]);
            } else {
                assert(names[names.len() - 1] == names.last());
            }
        }
        assert forall|j: int, k: int|
            0 <= j < after.len() && 0 <= k < after.len() && j != k implies after[j] != after[k] by {
            if j < before.len() && k < before.len() {
                assert(before[j] != before[k]);
            } else if j < before.len() {
                assert(before.contains(before[j]));
            } else {
                assert(before.contains(before[k]));
            }
        }
    }
}

/// The target that is named first is the first one selected: it is the reference.
pub proof fn first_name_is_the_reference(names: Seq<Seq<char>>, features: Features)
    requires
        names.len() > 0,
        chosen(names, features) is Ok,
    ensures
        chosen(names, features)->Ok_0.len() > 0,
        Target::named(names[0]) == Some(chosen(names, features)->Ok_0[0]),
    decreases names.len(),
{
    if names.len() > 1 {
        first_name_is_the_reference(names.drop_last(), features);
    } else {
        reveal_with_fuel(chosen, 2);
    }
}

/// A selection is never empty: not even the one that no list makes.
pub proof fn a_selection_is_never_empty(raw: Option<Seq<char>>, features: Features)
    ensures
        requested(raw, features) matches Ok(targets) ==> targets.len() > 0,
{
    crate::target::usable_targets_are_the_linked_ones(
        features,
        Target::Burn(crate::target::Backend::NdArray),
    );
}

/// A target can be selected by its own name.
pub proof fn own_name_selects(target: Target, features: Features)
    requires
        target.linked_in(features),
    ensures
        selection(seq![target.title()], features) == Ok::<Seq<Target>, Refusal>(seq![target]),
{
    crate::target::target_names_round_trip(target);
    reveal_with_fuel(chosen, 2);
    assert(Seq::<Target>::empty().push(target) =~= seq![target]);
}

/// Targets are selected in the order in which they are first named: of two of them, the
/// earlier one is named before the later one is for the first time.
pub proof fn targets_are_selected_in_the_order_of_their_names(
    names: Seq<Seq<char>>,
    features: Features,
    j: int,
    k: int,
)
    requires
        chosen(names, features) is Ok,
        0 <= j < k < chosen(names, features)->Ok_0.len(),
    ensures
        exists|p: int|
            0 <= p < names.len() && Target::named(#[trigger] names[p]) == Some(
                chosen(names, features)->Ok_0[j],
            ) && forall|q: int|
                0 <= q <= p ==> Target::named(#[trigger] names[q]) != Some(
                    chosen(names, features)->Ok_0[k],
                ),
    decreases names.len(),
{
    let shorter = names.drop_last();
    let before = chosen(shorter, features)->Ok_0;
    let after = chosen(names, features)->Ok_0;
    assert(after[j] == before[j]);
    if k < before.len() {
        targets_are_selected_in_the_order_of_their_names(shorter, features, j, k);
        assert(after[k] == before[k]);
        let p = choose|p: int|
            0 <= p < shorter.len() && Target::named(#[trigger] shorter[p]) == Some(before[j])
                && forall|q: int|
                0 <= q <= p ==> Target::named(#[trigger] shorter[q]) != Some(before[k]);
        assert(names[p] == shorter[p]);
        assert forall|q: int| 0 <= q <= p implies Target::named(#[trigger] names[q]) != Some(
            after[k],
        ) by {
            assert(names[q] == shorter[q]);
        }
    } else {
        selected_targets_were_named(shorter, features);
        let p = choose|p: int|
            0 <= p < shorter.len() && Target::named(#[trigger] shorter[p]) == Some(before[j]);
        assert(names[p] == shorter[p]);
        assert forall|q: int| 0 <= q <= p implies Target::named(#[trigger] names[q]) != Some(
            after[k],
        ) by {
            assert(names[q] == shorter[q]);
            every_name_is_selected(shorter, features, q);
            assert(!before.contains(after[k]));
        }
    }
}

/// Whether a name is that of a target that the build is linked with.
pub open spec fn can_be_honoured(name: Seq<char>, features: Features) -> bool {
    Target::named(name) matches Some(target) && target.linked_in(features)
}

/// A list is accepted exactly if every name in it is that of a target that the build is
/// linked with.
pub proof fn a_list_is_accepted_if_every_name_is(names: Seq<Seq<char>>, features: Features)
    ensures
        chosen(names, features) is Ok <==> forall|i: int|
            0 <= i < names.len() ==> can_be_honoured(#[trigger] names[i], features),
{
    if chosen(names, features) is Ok {
        assert forall|i: int| 0 <= i < names.len() implies can_be_honoured(
            #[trigger] names[i],
            features,
        ) by {
            every_name_is_selected(names, features, i);
        }
    } else {
        let i = a_refusal_is_about_the_first_name_at_fault(names, features);
        assert(!can_be_honoured(names[i], features));
    }
}

/// A refusal is about the first name in the list that is no target's, or that of a target
/// that the build is not linked with: of the latter it says which target.
pub proof fn a_refusal_is_about_the_first_name_at_fault(
    names: Seq<Seq<char>>,
    features: Features,
) -> (i: int)
    requires
        chosen(names, features) is Err,
    ensures
        0 <= i < names.len(),
        forall|q: int| 0 <= q < i ==> can_be_honoured(#[trigger] names[q], features),
        match chosen(names, features)->Err_0 {
            Refusal::Unknown(name) => name == names[i] && Target::named(name) is None,
            Refusal::Unavailable(name, target) => name == names[i] && Target::named(name) == Some(
                target,
            ) && !target.linked_in(features),
            Refusal::Nothing => false,
        },
    decreases names.len(),
{
    let shorter = names.drop_last();
    if chosen(shorter, features) is Ok {
        assert forall|q: int| 0 <= q < names.len() - 1 implies can_be_honoured(
            #[trigger] names[q],
            features,
        ) by {
            assert(names[q] == shorter[q]);
            every_name_is_selected(shorter, features, q);
        }
        names.len() - 1
    } else {
        let i = a_refusal_is_about_the_first_name_at_fault(shorter, features);
        assert forall|q: int| 0 <= q < i implies can_be_honoured(#[trigger] names[q], features) by {
            assert(names[q] == shorter[q]);
        }
        i
    }
}

/// A selection fails on no names at all, and otherwise only on a name at fault.
pub proof fn no_names_select_nothing(names: Seq<Seq<char>>, features: Features)
    ensures
        names.len() == 0 ==> selection(names, features) == Err::<Seq<Target>, Refusal>(
            Refusal::Nothing,
        ),
        names.len() > 0 ==> selection(names, features) == chosen(names, features),
{
    if names.len() > 0 && chosen(names, features) is Ok {
        first_name_is_the_reference(names, features);
    }
}

/// The names in a list are those before its first comma, followed by those after it; and
/// text without a comma is one name, in lower case and without the white space around it,
/// or none if there is nothing else.
pub proof fn names_are_listed_between_commas(a: Seq<char>, b: Seq<char>)
    ensures
        listed_names(a.push(',') + b) == listed_names(a) + listed_names(b),
        listed_ascii_names(a.push(',') + b) == listed_ascii_names(a) + listed_ascii_names(b),
        crate::text::lacks(a, ',') ==> {
            let name = crate::text::unicode_lowercase(crate::text::trimmed(a));
            let ascii = crate::text::trimmed(a).map_values(|c: char| crate::text::ascii_lower(c));
            &&& name.len() > 0 ==> listed_names(a) == seq![name]
            &&& name.len() == 0 ==> listed_names(a).len() == 0
            &&& ascii.len() > 0 ==> listed_ascii_names(a) == seq![ascii]
            &&& ascii.len() == 0 ==> listed_ascii_names(a).len() == 0
        },
{
    let low = |piece: Seq<char>| crate::text::unicode_lowercase(crate::text::trimmed(piece));
    let ascii_low = |piece: Seq<char>|
        crate::text::trimmed(piece).map_values(|c: char| crate::text::ascii_lower(c));
    let kept = |name: Seq<char>| name.len() > 0;
    let (x, y) = (crate::text::split(a, ','), crate::text::split(b, ','));
    crate::text::pieces_of_joined_texts(a, b, ',');
    assert((x + y).map_values(low) =~= x.map_values(low) + y.map_values(low));
    assert((x + y).map_values(ascii_low) =~= x.map_values(ascii_low) + y.map_values(ascii_low));
    Seq::filter_distributes_over_add(x.map_values(low), y.map_values(low), kept);
    Seq::filter_distributes_over_add(x.map_values(ascii_low), y.map_values(ascii_low), kept);
    if crate::text::lacks(a, ',') {
        let nothing = Seq::<char>::empty();
        assert(crate::text::split(nothing, ',') =~= seq![nothing]);
        crate::text::split_extended(nothing, a, ',');
        assert(nothing + a =~= a);
        assert(x =~= seq![a]);
        let (p, q) = (x.map_values(low), x.map_values(ascii_low));
        assert(p =~= seq![low(a)]);
        assert(q =~= seq![ascii_low(a)]);
        assert(p.drop_last() =~= Seq::<Seq<char>>::empty());
        assert(q.drop_last() =~= Seq::<Seq<char>>::empty());
        reveal_with_fuel(Seq::filter, 2);
        assert(p.filter(kept) =~= if low(a).len() > 0 {
            seq![low(a)]
        } else {
            Seq::empty()
        });
        assert(q.filter(kept) =~= if ascii_low(a).len() > 0 {
            seq![ascii_low(a)]
        } else {
            Seq::empty()
        });
    }
}

/// What selects every usable target: no list at all, a list of nothing but white space, and
/// the word `all`, in any case and with white space around it. Any other list selects the
/// targets it names.
pub proof fn what_selects_every_target(list: Seq<char>, features: Features)
    ensures
        requested(None, features) == Ok::<Seq<Target>, Refusal>(Target::usable(features)),
        ({
            let word = crate::text::trimmed(list);
            let is_all = word.len() == 3 && (word[0] == 'a' || word[0] == 'A') && (word[1] == 'l'
                || word[1] == 'L') && (word[2] == 'l' || word[2] == 'L');
            &&& word.len() == 0 || is_all ==> requested(Some(list), features) == Ok::<
                Seq<Target>,
                Refusal,
            >(Target::usable(features))
            &&& word.len() > 0 && !is_all ==> requested(Some(list), features) == selection(
                listed_names(list),
                features,
            )
        }),
{
    reveal_strlit("all");
    let word = crate::text::trimmed(list);
    crate::text::case_is_all_that_may_differ(word, "all"@);
    assert("all"@[0] == 'a' && "all"@[1] == 'l' && "all"@[2] == 'l');
}

/// What a refusal says. An unknown name is shown, and with it the names that can be given; a
/// target that is not linked is shown by the name it was asked for, with the feature that
/// enables it and the names of the targets that the build can run.
pub proof fn a_refusal_says_what_can_be_done(
    refusal: Refusal,
    shown: Seq<char>,
    features: Features,
)
    ensures
        match refusal {
            Refusal::Unknown(_) => refusal.text(shown, features) == "invalid BACKENDS entry "@
                + shown
                + ": expected one of ndarray, flex, libtorch, cpu, tch-raw, candle (or `all`)"@,
            Refusal::Unavailable(_, target) => refusal.text(shown, features)
                == "BACKENDS requested "@ + shown
                + ", which this build does not support — rebuild with --features "@
                + target.feature_text() + ". Available: ["@ + name_list(
                Target::usable(features),
                Target::usable(features).len() as int,
            ) + "]"@,
            Refusal::Nothing => refusal.text(shown, features) == "BACKENDS named no usable target"@,
        },
        match refusal {
            Refusal::Unknown(name) => refusal.name() == name,
            Refusal::Unavailable(name, _) => refusal.name() == name,
            Refusal::Nothing => refusal.name() == ""@,
        },
{
}

/// How the names of targets are shown in a list: each between quotation marks, in the order
/// of the targets, with a comma and a blank between each two.
pub proof fn names_are_shown_in_quotation_marks(targets: Seq<Target>, k: int)
    requires
        1 <= k <= targets.len(),
    ensures
        name_list(targets, 0).len() == 0,
        name_list(targets, 1) == "\""@ + targets[0].title() + "\""@,
        k >= 2 ==> name_list(targets, k) == name_list(targets, k - 1) + ", "@ + ("\""@
            + targets[k - 1].title() + "\""@),
{
    reveal_strlit("");
}

/// An outcome is the one stated exactly if it has the same targets in the same order, or the
/// same reason: an unknown name, a name with the target that is not linked, or nothing.
pub proof fn an_outcome_is_the_one_stated(
    r: Result<Vec<Target>, SelectionError>,
    expected: Result<Seq<Target>, Refusal>,
)
    ensures
        outcome_is(r, expected) <==> match (r, expected) {
            (Ok(targets), Ok(stated)) => targets@ == stated,
            (Err(SelectionError::Unknown { name }), Err(Refusal::Unknown(stated))) => name@
                == stated,
            (
                Err(SelectionError::Unavailable { name, target }),
                Err(Refusal::Unavailable(stated, meant)),
            ) => name@ == stated && target == meant,
            (Err(SelectionError::Nothing), Err(Refusal::Nothing)) => true,
            _ => false,
        },
{
}

/// The names that are looked at are the strings of the list, each in its place.
pub proof fn names_are_looked_at_in_their_places(names: Seq<String>, i: int)
    requires
        0 <= i < names.len(),
    ensures
        views(names).len() == names.len(),
        views(names)[i] == names[i]@,
{
}

} // verus!
