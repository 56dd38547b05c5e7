//! The differential oracle: comparing what several targets returned.
//!
//! Elements are compared by the bit patterns of 32-bit floating-point numbers. The
//! arithmetic of the tolerance test is done where the numbers are at home; its
//! outcome comes along with each element and counts only where both numbers are
//! finite.

use vstd::prelude::*;
use vstd::string::*;
use crate::text::decimal_text;

verus! {

/// What one target returned. It is `complete` where the tolerance test has an outcome for
/// each element; an outcome that is not there counts as within the tolerance.
#[derive(Debug)]
pub struct Reading {
    /// The bit patterns of the elements.
    pub values: Vec<u32>,
    /// For each element, whether it differs from the reference's by more than the
    /// tolerance. Unused in the reference itself.
    pub beyond: Vec<bool>,
}

/// How one target differs from the reference.
#[derive(Debug, Clone, Copy, PartialEq, Eq, Structural)]
pub enum Finding {
    /// It returned another number of elements.
    Length { len: usize, expected: usize },
    /// `count` of `total` elements diverge, the first of them at `first`.
    Values { count: usize, total: usize, first: usize },
}

/// A finding about the target at position `run`.
#[derive(Debug, Clone, Copy, PartialEq, Eq, Structural)]
pub struct Divergence {
    pub run: usize,
    pub finding: Finding,
}

/// Whether all bits of the exponent are set.
pub open spec fn is_special(bits: u32) -> bool {
    (bits as int / 0x800000) % 256 == 255
}

/// Whether the bits are those of a NaN.
pub open spec fn is_nan(bits: u32) -> bool {
    is_special(bits) && bits as int % 0x800000 != 0
}

/// Whether the bits are those of an infinity.
pub open spec fn is_infinite(bits: u32) -> bool {
    is_special(bits) && bits as int % 0x800000 == 0
}

/// Whether two elements disagree. A NaN agrees with a NaN and with nothing else, an
/// infinity with the same infinity and with nothing else, and finite numbers agree
/// within the tolerance.
pub open spec fn diverge(a: u32, b: u32, beyond: bool) -> bool {
    if is_nan(a) || is_nan(b) {
        is_nan(a) != is_nan(b)
    } else if is_infinite(a) || is_infinite(b) {
        a != b
    } else {
        beyond
    }
}

fn has_nan_bits(bits: u32) -> (r: bool)
    ensures
        r == is_nan(bits),
{
    (bits / 0x800000) % 256 == 255 && bits % 0x800000 != 0
}

fn has_infinite_bits(bits: u32) -> (r: bool)
    ensures
        r == is_infinite(bits),
{
    (bits / 0x800000) % 256 == 255 && bits % 0x800000 == 0
}

/// Whether two targets' values for the same element disagree, where `beyond` says
/// whether they differ by more than the tolerance.
///
/// Special values are decided before the tolerance is asked: arithmetic on them
/// never exceeds a threshold, so the tolerance alone would report agreement for
/// every pair with a NaN or an infinity in it.
pub fn values_diverge(a: u32, b: u32, beyond: bool) -> (r: bool)
    ensures
        r == diverge(a, b, beyond),
{
    if has_nan_bits(a) || has_nan_bits(b) {
        return has_nan_bits(a) != has_nan_bits(b);
    }
    if has_infinite_bits(a) || has_infinite_bits(b) {
        return a != b;
    }
    beyond
}

impl Reading {
    /// Whether there are as many outcomes of the tolerance test as elements.
    pub open spec fn complete(self) -> bool {
        self.beyond@.len() == self.values@.len()
    }

    /// The tolerance test's outcome for element `i`.
    pub open spec fn is_beyond(self, i: int) -> bool {
        i < self.beyond@.len() && self.beyond@[i]
    }

    /// Whether element `i` diverges from the reference's.
    pub open spec fn diverges_at(self, reference: Reading, i: int) -> bool {
        diverge(reference.values@[i], self.values@[i], self.is_beyond(i))
    }

    /// The diverging elements among the first `n`, in ascending order.
    pub open spec fn diverging(self, reference: Reading, n: int) -> Seq<int>
        decreases n,
    {
        if n <= 0 {
            Seq::empty()
        } else if self.diverges_at(reference, n - 1) {
            self.diverging(reference, n - 1).push(n - 1)
        } else {
            self.diverging(reference, n - 1)
        }
    }

    /// How the reading differs from the reference, if it does.
    pub open spec fn finding(self, reference: Reading) -> Option<Finding> {
        let len = self.values@.len();
        let expected = reference.values@.len();
        if len != expected {
            Some(Finding::Length { len: len as usize, expected: expected as usize })
        } else {
            let all = self.diverging(reference, len as int);
            if all.len() == 0 {
                None
            } else {
                Some(
                    Finding::Values {
                        count: all.len() as usize,
                        total: len as usize,
                        first: all[0] as usize,
                    },
                )
            }
        }
    }

    /// Compare the reading with the reference.
    pub fn compare(&self, reference: &Reading) -> (r: Option<Finding>)
        ensures
            r == self.finding(*reference),
    {
        let len: usize = self.values.len();
        let expected: usize = reference.values.len();
        if len != expected {
            return Some(Finding::Length { len, expected });
        }
        let mut count: usize = 0;
        let mut first: usize = 0;
        let mut i: usize = 0;
        while i < len
            invariant
                len == self.values@.len(),
                len == reference.values@.len(),
                i <= len,
                count <= i,
                count == self.diverging(*reference, i as int).len(),
                count > 0 ==> first == self.diverging(*reference, i as int)[0],
                count > 0 ==> first < i,
            decreases len - i,
        {
            let beyond: bool = i < self.beyond.len() && self.beyond[i];
            if values_diverge(reference.values[i], self.values[i], beyond) {
                if count == 0 {
                    first = i;
                }
                count = count + 1;
            }
            i = i + 1;
        }
        if count == 0 {
            None
        } else {
            Some(Finding::Values { count, total: len, first })
        }
    }
}

/// The findings about the first `n` results, each against the first result.
pub open spec fn findings(results: Seq<Reading>, n: int) -> Seq<Divergence>
    decreases n,
{
    if n <= 1 {
        Seq::empty()
    } else {
        match results[n - 1].finding(results[0]) {
            Some(finding) => findings(results, n - 1).push(
                Divergence { run: (n - 1) as usize, finding },
            ),
            None => findings(results, n - 1),
        }
    }
}

/// The readings behind references to them.
pub open spec fn referents(results: Seq<&Reading>) -> Seq<Reading> {
    Seq::new(results.len(), |i: int| *results[i])
}

/// Compare every result with the reference, which is the first one. All targets
/// that diverge are reported: one cause can make several wrong in different ways.
pub fn divergences(results: &Vec<&Reading>) -> (r: Vec<Divergence>)
    ensures
        r@ == findings(referents(results@), results@.len() as int),
{
    let mut report: Vec<Divergence> = Vec::new();
    let mut i: usize = 1;
    while i < results.len()
        invariant
            1 <= i,
            i <= results.len() || i == 1,
            report@ == findings(referents(results@), i as int),
        decreases results.len() - i,
    {
        match results[i].compare(results[0]) {
            Some(finding) => {
                report.push(Divergence { run: i, finding });
            },
            None => {},
        }
        i = i + 1;
    }
    report
}

/// What comparing the gradients of several targets comes to.
#[derive(Debug)]
pub enum GradVerdict {
    Agree,
    /// The target at position `run` returned another number of leaves.
    LeafCount { run: usize },
    /// Targets diverge on the gradient of a leaf.
    Diverged { leaf: usize, report: Vec<Divergence> },
}

/// Readings of one leaf by all targets.
pub open spec fn column(runs: Seq<Vec<Reading>>, leaf: int) -> Seq<Reading> {
    Seq::new(runs.len(), |r: int| runs[r]@[leaf])
}

/// The findings about one leaf.
pub open spec fn leaf_findings(runs: Seq<Vec<Reading>>, leaf: int) -> Seq<Divergence> {
    findings(column(runs, leaf), runs.len() as int)
}

/// Whether the target at position `r` returned as many leaves as the reference.
pub open spec fn counts_agree(runs: Seq<Vec<Reading>>, r: int) -> bool {
    runs[r]@.len() == runs[0]@.len()
}

/// Whether a verdict is the right one: the first target with another number of
/// leaves, else the first leaf with a finding, else agreement.
pub open spec fn is_verdict(runs: Seq<Vec<Reading>>, verdict: GradVerdict) -> bool {
    match verdict {
        GradVerdict::LeafCount { run } => {
            &&& 0 < run < runs.len()
            &&& !counts_agree(runs, run as int)
            &&& forall|r: int| 0 <= r < run ==> #[trigger] counts_agree(runs, r)
        },
        GradVerdict::Diverged { leaf, report } => {
            &&& runs.len() > 0
            &&& forall|r: int| 0 <= r < runs.len() ==> #[trigger] counts_agree(runs, r)
            &&& leaf < runs[0]@.len()
            &&& report@ == leaf_findings(runs, leaf as int)
            &&& report@.len() > 0
            &&& forall|l: int| 0 <= l < leaf ==> (#[trigger] leaf_findings(runs, l)).len() == 0
        },
        GradVerdict::Agree => runs.len() > 0 ==> {
            &&& forall|r: int| 0 <= r < runs.len() ==> #[trigger] counts_agree(runs, r)
            &&& forall|l: int|
                0 <= l < runs[0]@.len() ==> (#[trigger] leaf_findings(runs, l)).len() == 0
        },
    }
}

/// Compare the gradients of several targets, leaf by leaf, with those of the first.
pub fn compare_gradients(runs: &Vec<Vec<Reading>>) -> (r: GradVerdict)
    ensures
        is_verdict(runs@, r),
{
    if runs.len() == 0 {
        return GradVerdict::Agree;
    }
    let leaves: usize = runs[0].len();
    let mut run: usize = 1;
    while run < runs.len()
        invariant
            1 <= run <= runs.len(),
            leaves == runs@[0]@.len(),
            forall|r: int| 0 <= r < run ==> #[trigger] counts_agree(runs@, r),
        decreases runs.len() - run,
    {
        if runs[run].len() != leaves {
            return GradVerdict::LeafCount { run };
        }
        run = run + 1;
    }
    let mut leaf: usize = 0;
    while leaf < leaves
        invariant
            runs.len() > 0,
            leaves == runs@[0]@.len(),
            leaf <= leaves,
            forall|r: int| 0 <= r < runs@.len() ==> #[trigger] counts_agree(runs@, r),
            forall|l: int| 0 <= l < leaf ==> (#[trigger] leaf_findings(runs@, l)).len() == 0,
        decreases leaves - leaf,
    {
        let mut readings: Vec<&Reading> = Vec::new();
        let mut k: usize = 0;
        while k < runs.len()
            invariant
                k <= runs.len(),
                leaves == runs@[0]@.len(),
                leaf < leaves,
                readings@.len() == k,
                forall|i: int| 0 <= i < k ==> *(#[trigger] readings@[i]) == runs@[i]@[leaf as int],
                forall|r: int| 0 <= r < runs@.len() ==> #[trigger] counts_agree(runs@, r),
            decreases runs.len() - k,
        {
            assert(counts_agree(runs@, k as int));
            readings.push(&runs[k][leaf]);
            k = k + 1;
        }
        assert(referents(readings@) =~= column(runs@, leaf as int));
        let report = divergences(&readings);
        if report.len() > 0 {
            return GradVerdict::Diverged { leaf, report };
        }
        leaf = leaf + 1;
    }
    GradVerdict::Agree
}

impl Divergence {
    /// One line of a report about the target `name`, with the first diverging
    /// values as they are shown.
    pub open spec fn text(
        self,
        label: Seq<char>,
        name: Seq<char>,
        reference: Seq<char>,
        shown: Seq<char>,
        reference_shown: Seq<char>,
    ) -> Seq<char> {
        match self.finding {
            Finding::Length { len, expected } => label + ": "@ + name + " produced "@
                + crate::text::decimal(len as int) + " elements, "@ + reference + " produced "@
                + crate::text::decimal(expected as int),
            Finding::Values { count, total, first } => label + ": "@ + name + " diverges from "@
                + reference + " at "@ + crate::text::decimal(count as int) + "/"@
                + crate::text::decimal(total as int) + " elements (first at ["@
                + crate::text::decimal(first as int) + "]: "@ + name + "="@ + shown + ", "@
                + reference + "="@ + reference_shown + ")"@,
        }
    }

    pub fn to_text(
        &self,
        label: &str,
        name: &str,
        reference: &str,
        shown: &str,
        reference_shown: &str,
    ) -> (r: String)
        ensures
            r@ == self.text(label@, name@, reference@, shown@, reference_shown@),
    {
        let mut s: String = label.to_owned();
        s.append(": ");
        s.append(name);
        match self.finding {
            Finding::Length { len, expected } => {
                s.append(" produced ");
                s.append(decimal_text(len).as_str());
                s.append(" elements, ");
                s.append(reference);
                s.append(" produced ");
                s.append(decimal_text(expected).as_str());
            },
            Finding::Values { count, total, first } => {
                s.append(" diverges from ");
                s.append(reference);
                s.append(" at ");
                s.append(decimal_text(count).as_str());
                s.append("/");
                s.append(decimal_text(total).as_str());
                s.append(" elements (first at [");
                s.append(decimal_text(first).as_str());
                s.append("]: ");
                s.append(name);
                s.append("=");
                s.append(shown);
                s.append(", ");
                s.append(reference);
                s.append("=");
                s.append(reference_shown);
                s.append(")");
            },
        }
        s
    }
}

/// The first `k` lines, separated by line breaks.
pub open spec fn joined_lines(lines: Seq<String>, k: int) -> Seq<char>
    decreases k,
{
    if k <= 0 {
        ""@
    } else if k == 1 {
        lines[0]@
    } else {
        joined_lines(lines, k - 1) + "\n"@ + lines[k - 1]@
    }
}

/// The message that a divergence fails with.
pub open spec fn divergence_message(lines: Seq<String>) -> Seq<char> {
    "differential divergence:\n"@ + joined_lines(lines, lines.len() as int)
}

/// Agreement if there is no line of report, and otherwise the message that a
/// divergence fails with.
pub fn assert_agreement(lines: &Vec<String>) -> (r: Result<(), String>)
    ensures
        r is Ok <==> lines@.len() == 0,
        r matches Err(message) ==> message@ == "differential divergence:\n"@ + joined_lines(
            lines@,
            lines@.len() as int,
        ),
        r matches Err(message) ==> message@ == divergence_message(lines@),
{
    if lines.len() == 0 {
        return Ok(());
    }
    let mut body: String = "".to_owned();
    let mut i: usize = 0;
    while i < lines.len()
        invariant
            i <= lines.len(),
            body@ == joined_lines(lines@, i as int),
        decreases lines.len() - i,
    {
        if i == 0 {
            body = lines[0].clone();
        } else {
            body.append("\n");
            body.append(lines[i].as_str());
        }
        i = i + 1;
    }
    let mut message: String = "differential divergence:\n".to_owned();
    message.append(body.as_str());
    Err(message)
}

/// How a leaf's gradient is labelled in reports.
pub open spec fn label_text(leaf: int) -> Seq<char> {
    "grad r"@ + crate::text::decimal(leaf)
}

/// The label of a leaf's gradient in reports.
pub fn leaf_label(leaf: usize) -> (r: String)
    ensures
        r@ == label_text(leaf as int),
        r@ == "grad r"@ + crate::text::decimal(leaf as int),
{
    let mut s: String = "grad r".to_owned();
    s.append(decimal_text(leaf).as_str());
    s
}

/// What is said of targets that returned different numbers of leaves.
pub open spec fn leaf_counts_text(
    reference: Seq<char>,
    expected: int,
    name: Seq<char>,
    count: int,
) -> Seq<char> {
    "leaf count mismatch: "@ + reference + "="@ + crate::text::decimal(expected) + ", "@ + name
        + "="@ + crate::text::decimal(count)
}

/// The message for targets that returned different numbers of leaves.
pub fn leaf_count_message(reference: &str, expected: usize, name: &str, count: usize) -> (r: String)
    ensures
        r@ == leaf_counts_text(reference@, expected as int, name@, count as int),
        r@ == "leaf count mismatch: "@ + reference@ + "="@ + crate::text::decimal(expected as int)
            + ", "@ + name@ + "="@ + crate::text::decimal(count as int),
{
    let mut s: String = "leaf count mismatch: ".to_owned();
    s.append(reference);
    s.append("=");
    s.append(decimal_text(expected).as_str());
    s.append(", ");
    s.append(name);
    s.append("=");
    s.append(decimal_text(count).as_str());
    s
}

/// The order of the two sides does not matter.
pub proof fn divergence_is_symmetric(a: u32, b: u32, beyond: bool)
    ensures
        diverge(a, b, beyond) == diverge(b, a, beyond),
{
}

/// An element agrees with itself, special or not.
pub proof fn element_agrees_with_itself(a: u32)
    ensures
        !diverge(a, a, false),
{
}

/// No tolerance hides a special value: a NaN or an infinity diverges from whatever
/// is not a NaN or the same infinity, whatever the tolerance test says.
pub proof fn special_values_are_never_tolerated(a: u32, b: u32, beyond: bool)
    requires
        is_nan(a) || is_infinite(a),
    ensures
        is_nan(a) ==> diverge(a, b, beyond) == !is_nan(b),
        is_infinite(a) ==> diverge(a, b, beyond) == (a != b),
{
}

/// Between finite numbers the tolerance alone decides.
pub proof fn tolerance_decides_between_finite_values(a: u32, b: u32, beyond: bool)
    requires
        !is_nan(a) && !is_infinite(a),
        !is_nan(b) && !is_infinite(b),
    ensures
        diverge(a, b, beyond) == beyond,
{
}

/// The diverging elements are listed completely, once each, in ascending order.
pub proof fn diverging_elements_are_exact(reading: Reading, reference: Reading, n: int)
    ensures
        forall|i: int| #[trigger]
            reading.diverging(reference, n).contains(i) <==> 0 <= i < n && reading.diverges_at(
                reference,
                i,
            ),
        forall|j: int, k: int|
            0 <= j < k < reading.diverging(reference, n).len() ==> reading.diverging(
                reference,
                n,
            )[j] < reading.diverging(reference, n)[k],
    decreases n,
{
    let all = reading.diverging(reference, n);
    if n > 0 {
        diverging_elements_are_exact(reading, reference, n - 1);
        let before = reading.diverging(reference, n - 1);
        assert forall|i: int| #[trigger] all.contains(i) <==> 0 <= i < n && reading.diverges_at(
            reference,
            i,
        ) by {
            if before.contains(i) {
                let k = before.index_of(i);
                assert(all[k] == i);
            }
            if all.contains(i) && i != n - 1 {
                let k = all.index_of(i);
                assert(all[k] == i);
                assert(before[k] == i);
            }
            if i == n - 1 && reading.diverges_at(reference, i) {
                assert(all[all.len() - 1] == i);
            }
            if i == n - 1 && all.contains(i) && !reading.diverges_at(reference, i) {
                assert(before.contains(i));
            }
        }
        assert forall|j: int, k: int| 0 <= j < k < all.len() implies all[j] < all[k] by {
            if k == before.len() {
                assert(before.contains(before[j]));
            }
        }
    }
}

/// Every target that differs from the reference is reported with its finding, once,
/// in the order of the targets, and no other target is.
pub proof fn every_diverging_target_is_reported(results: Seq<Reading>, n: int)
    requires
        0 <= n <= results.len() <= usize::MAX,
    ensures
        forall|k: int|
            0 <= k < findings(results, n).len() ==> {
                let d = #[trigger] findings(results, n)[k];
                1 <= d.run < n && results[d.run as int].finding(results[0]) == Some(d.finding)
            },
        forall|r: int|
            1 <= r < n && (#[trigger] results[r].finding(results[0])) is Some ==> exists|k: int|
                0 <= k < findings(results, n).len() && (#[trigger] findings(results, n)[k]).run
                    == r,
        forall|j: int, k: int|
            0 <= j < k < findings(results, n).len() ==> (#[trigger] findings(results, n)[j]).run < (
            #[trigger] findings(results, n)[k]).run,
    decreases n,
{
    if n > 1 {
        every_diverging_target_is_reported(results, n - 1);
        let before = findings(results, n - 1);
        let after = findings(results, n);
        assert forall|r: int|
            1 <= r < n && (#[trigger] results[r].finding(results[0])) is Some implies exists|k: int|
            0 <= k < after.len() && (#[trigger] after[k]).run == r by {
            if r < n - 1 {
                let k = choose|k: int| 0 <= k < before.len() && (#[trigger] before[k]).run == r;
                assert(after[k] == before[k]);
            } else {
                assert(after[after.len() - 1].run == r);
            }
        }
        assert forall|k: int| 0 <= k < after.len() implies {
            let d = #[trigger] after[k];
            1 <= d.run < n && results[d.run as int].finding(results[0]) == Some(d.finding)
        } by {
            if k < before.len() {
                assert(after[k] == before[k]);
            }
        }
        assert forall|j: int, k: int| 0 <= j < k < after.len() implies (#[trigger] after[j]).run < (
        #[trigger] after[k]).run by {
            assert(after[j] == before[j]);
            if k < before.len() {
                assert(after[k] == before[k]);
            }
        }
    }
}

/// The findings with their run numbers raised.
pub open spec fn shifted(report: Seq<Divergence>, by: int) -> Seq<Divergence> {
    Seq::new(
        report.len(),
        |k: int| Divergence { run: (report[k].run + by) as usize, finding: report[k].finding },
    )
}

proof fn findings_of_a_beginning(results: Seq<Reading>, more: Seq<Reading>, n: int)
    requires
        n <= results.len(),
    ensures
        findings(results + more, n) == findings(results, n),
    decreases n,
{
    if n > 1 {
        findings_of_a_beginning(results, more, n - 1);
    }
}

proof fn findings_of_a_joined_list(left: Seq<Reading>, right: Seq<Reading>, n: int)
    requires
        left.len() >= 1,
        1 <= n <= right.len(),
        left[0] == right[0],
        left.len() + right.len() - 1 <= usize::MAX,
    ensures
        findings(left + right.skip(1), left.len() + n - 1) == findings(left, left.len() as int)
            + shifted(findings(right, n), left.len() - 1),
    decreases n,
{
    let joined = left + right.skip(1);
    let by = left.len() - 1;
    let before = findings(left, left.len() as int);
    if n == 1 {
        findings_of_a_beginning(left, right.skip(1), left.len() as int);
        assert(before + shifted(findings(right, n), by) =~= before);
    } else {
        findings_of_a_joined_list(left, right, n - 1);
        assert(joined[by + n - 1] == right[n - 1]);
        assert(joined[0] == right[0]);
        let less = findings(right, n - 1);
        let more = findings(right, n);
        assert(findings(joined, by + n - 1) == before + shifted(less, by));
        match right[n - 1].finding(right[0]) {
            Some(finding) => {
                let d = Divergence { run: (n - 1) as usize, finding };
                let raised = Divergence { run: (by + n - 1) as usize, finding };
                assert(more == less.push(d));
                assert(shifted(more, by) =~= shifted(less, by).push(raised));
                assert(findings(joined, by + n) == (before + shifted(less, by)).push(raised));
                assert((before + shifted(less, by)).push(raised) =~= before + shifted(less, by).push(
                    raised,
                ));
            },
            None => {},
        }
    }
}

/// The report on two lists of results put together is the two reports put together: where
/// two lists share their first result, the findings about their concatenation, with that
/// result once, are those about the first list, followed by those about the second with
/// their run numbers raised. A finding reads the same under any run number.
pub proof fn reports_on_joined_lists_are_joined(left: Seq<Reading>, right: Seq<Reading>)
    requires
        left.len() >= 1,
        right.len() >= 1,
        left[0] == right[0],
        left.len() + right.len() - 1 <= usize::MAX,
    ensures
        findings(left + right.skip(1), left.len() + right.len() - 1) == findings(
            left,
            left.len() as int,
        ) + shifted(findings(right, right.len() as int), left.len() - 1),
        forall|k: int|
            0 <= k < findings(right, right.len() as int).len() ==> {
                let d = findings(right, right.len() as int)[k];
                let raised = #[trigger] shifted(
                    findings(right, right.len() as int),
                    left.len() - 1,
                )[k];
                &&& raised.run == d.run + left.len() - 1
                &&& raised.finding == d.finding
                &&& (left + right.skip(1))[raised.run as int] == right[d.run as int]
                &&& forall|
                    label: Seq<char>,
                    name: Seq<char>,
                    reference: Seq<char>,
                    shown: Seq<char>,
                    reference_shown: Seq<char>,
                |
                    #[trigger] raised.text(label, name, reference, shown, reference_shown)
                        == d.text(label, name, reference, shown, reference_shown)
            },
{
    findings_of_a_joined_list(left, right, right.len() as int);
    every_diverging_target_is_reported(right, right.len() as int);
}

/// A single result, or none, has nothing to diverge from.
pub proof fn one_result_is_no_divergence(results: Seq<Reading>)
    requires
        results.len() <= 1,
    ensures
        findings(results, results.len() as int) == Seq::<Divergence>::empty(),
{
}

/// A target that returned the reference's own elements, none of them beyond the
/// tolerance, is not reported.
pub proof fn equal_readings_agree(reading: Reading, reference: Reading)
    requires
        reading.values@ == reference.values@,
        forall|i: int| 0 <= i < reading.values@.len() ==> !#[trigger] reading.is_beyond(i),
    ensures
        reading.finding(reference) is None,
{
    let n = reading.values@.len() as int;
    diverging_elements_are_exact(reading, reference, n);
    let all = reading.diverging(reference, n);
    if all.len() > 0 {
        assert(all.contains(all[0]));
        assert(!reading.is_beyond(all[0]));
    }
}

/// Gradients are found to agree exactly when every target returned as many leaves as
/// the reference and no leaf has a finding.
pub proof fn agreement_means_no_finding(runs: Seq<Vec<Reading>>, verdict: GradVerdict)
    requires
        runs.len() > 0,
        is_verdict(runs, verdict),
    ensures
        verdict is Agree <==> {
            &&& forall|r: int| 0 <= r < runs.len() ==> #[trigger] counts_agree(runs, r)
            &&& forall|l: int|
                0 <= l < runs[0]@.len() ==> (#[trigger] leaf_findings(runs, l)).len() == 0
        },
{
    match verdict {
        GradVerdict::LeafCount { run } => {
            assert(!counts_agree(runs, run as int));
        },
        GradVerdict::Diverged { leaf, report } => {
            assert(leaf_findings(runs, leaf as int).len() > 0);
        },
        GradVerdict::Agree => {},
    }
}

/// Whether every target returned something.
pub open spec fn all_returned<T>(outcomes: Seq<Result<T, String>>) -> bool {
    forall|t: int| 0 <= t < outcomes.len() ==> (#[trigger] outcomes[t]) is Ok
}

/// Whether `message` is that of the first target that failed.
pub open spec fn is_first_failure<T>(outcomes: Seq<Result<T, String>>, message: String) -> bool {
    exists|t: int|
        0 <= t < outcomes.len() && (#[trigger] outcomes[t]) == Err::<T, String>(message) && forall|
            s: int,
        |
            0 <= s < t ==> (#[trigger] outcomes[s]) is Ok
}

/// What the targets returned, where all of them did.
pub open spec fn returned<T>(outcomes: Seq<Result<T, String>>) -> Seq<T> {
    Seq::new(outcomes.len(), |t: int| outcomes[t]->Ok_0)
}

/// Whether `r` is what the outcomes of all targets come to.
pub open spec fn is_settled<T>(
    outcomes: Seq<Result<T, String>>,
    r: Result<Vec<T>, String>,
) -> bool {
    match r {
        Ok(values) => all_returned(outcomes) && values@ == returned(outcomes),
        Err(message) => is_first_failure(outcomes, message),
    }
}

/// What all targets returned, or the message of the first that failed.
pub fn settle<T>(outcomes: Vec<Result<T, String>>) -> (r: Result<Vec<T>, String>)
    ensures
        r is Ok <==> all_returned(outcomes@),
        r matches Ok(values) ==> values@ == returned(outcomes@),
        r matches Err(message) ==> is_first_failure(outcomes@, message),
        is_settled(outcomes@, r),
{
    let ghost all = outcomes@;
    let mut rest: Vec<Result<T, String>> = outcomes;
    let mut values: Vec<T> = Vec::new();
    while rest.len() > 0
        invariant
            all == outcomes@,
            values@.len() + rest@.len() == all.len(),
            rest@ == all.skip(values@.len() as int),
            forall|t: int|
                0 <= t < values@.len() ==> (#[trigger] all[t]) == Ok::<T, String>(values@[t]),
        decreases rest@.len(),
    {
        let ghost k = values@.len() as int;
        assert(rest@[0] == all[k]);
        match rest.remove(0) {
            Ok(value) => {
                values.push(value);
                assert(rest@ =~= all.skip(k + 1));
            },
            Err(message) => {
                assert(all[k] == Err::<T, String>(message));
                return Err(message);
            },
        }
    }
    assert(values@ =~= returned(all));
    Ok(values)
}

/// Whether `r` is what a tensor run with the given outcomes comes to.
pub open spec fn is_tensor_outcome(
    outcomes: Seq<Result<Reading, String>>,
    r: Result<(Vec<Reading>, Vec<Divergence>), String>,
) -> bool {
    match r {
        Ok(run) => {
            &&& all_returned(outcomes)
            &&& run.0@ == returned(outcomes)
            &&& run.1@ == findings(returned(outcomes), outcomes.len() as int)
        },
        Err(message) => is_first_failure(outcomes, message),
    }
}

/// Whether `r` is what an autograd run with the given outcomes comes to.
pub open spec fn is_grad_outcome(
    outcomes: Seq<Result<Vec<Reading>, String>>,
    r: Result<(Vec<Vec<Reading>>, GradVerdict), String>,
) -> bool {
    match r {
        Ok(run) => {
            &&& all_returned(outcomes)
            &&& run.0@ == returned(outcomes)
            &&& is_verdict(returned(outcomes), run.1)
        },
        Err(message) => is_first_failure(outcomes, message),
    }
}

/// The whole comparison of a tensor run: what the targets returned and the findings
/// about it, or the message of the first target that failed.
pub fn tensor_run(outcomes: Vec<Result<Reading, String>>) -> (r: Result<
    (Vec<Reading>, Vec<Divergence>),
    String,
>)
    ensures
        r is Ok <==> all_returned(outcomes@),
        r matches Ok(run) ==> run.0@ == returned(outcomes@) && run.1@ == findings(
            returned(outcomes@),
            outcomes@.len() as int,
        ),
        r matches Err(message) ==> is_first_failure(outcomes@, message),
        is_tensor_outcome(outcomes@, r),
{
    let readings: Vec<Reading> = match settle(outcomes) {
        Ok(readings) => readings,
        Err(message) => {
            return Err(message);
        },
    };
    let mut results: Vec<&Reading> = Vec::new();
    let mut t: usize = 0;
    while t < readings.len()
        invariant
            t <= readings.len(),
            results@.len() == t,
            forall|i: int| 0 <= i < t ==> *(#[trigger] results@[i]) == readings@[i],
        decreases readings.len() - t,
    {
        results.push(&readings[t]);
        t = t + 1;
    }
    assert(referents(results@) =~= readings@);
    let report = divergences(&results);
    Ok((readings, report))
}

/// The whole comparison of an autograd run: the gradients that the targets returned and
/// the verdict on them, or the message of the first target that failed.
pub fn grad_run(outcomes: Vec<Result<Vec<Reading>, String>>) -> (r: Result<
    (Vec<Vec<Reading>>, GradVerdict),
    String,
>)
    ensures
        r is Ok <==> all_returned(outcomes@),
        r matches Ok(run) ==> run.0@ == returned(outcomes@) && is_verdict(
            returned(outcomes@),
            run.1,
        ),
        r matches Err(message) ==> is_first_failure(outcomes@, message),
        is_grad_outcome(outcomes@, r),
{
    match settle(outcomes) {
        Ok(runs) => {
            let verdict = compare_gradients(&runs);
            Ok((runs, verdict))
        },
        Err(message) => Err(message),
    }
}

/// Whether a reading has as many elements as the reference and none of them diverges.
pub open spec fn agrees(reading: Reading, reference: Reading) -> bool {
    &&& reading.values@.len() == reference.values@.len()
    &&& forall|i: int|
        0 <= i < reference.values@.len() ==> !#[trigger] reading.diverges_at(reference, i)
}

/// A reading has no finding exactly when it agrees with the reference.
pub proof fn no_finding_is_agreement(reading: Reading, reference: Reading)
    ensures
        reading.finding(reference) is None <==> agrees(reading, reference),
{
    let n = reading.values@.len() as int;
    diverging_elements_are_exact(reading, reference, n);
    let all = reading.diverging(reference, n);
    if all.len() > 0 {
        assert(all.contains(all[0]));
    }
    if n == reference.values@.len() && all.len() == 0 {
        assert forall|i: int| 0 <= i < n implies !#[trigger] reading.diverges_at(reference, i) by {
            if reading.diverges_at(reference, i) {
                assert(all.contains(i));
            }
        }
    }
}

/// Whether a reading has as many elements as the reference, and each agrees with the
/// reference's by the outcome of the tolerance test that stands beside it.
pub open spec fn agrees_by_its_tolerance(reading: Reading, reference: Reading) -> bool {
    &&& reading.values@.len() == reference.values@.len()
    &&& forall|i: int|
        0 <= i < reference.values@.len() ==> !diverge(
            reference.values@[i],
            #[trigger] reading.values@[i],
            reading.beyond@[i],
        )
}

/// A complete reading is judged by the outcome of the tolerance test on every element:
/// none is taken for granted. It has no finding exactly when every outcome, or the special
/// values before it, say that the elements agree.
pub proof fn a_complete_reading_is_judged_by_its_tolerance(reading: Reading, reference: Reading)
    requires
        reading.complete(),
    ensures
        forall|i: int|
            0 <= i < reading.values@.len() ==> #[trigger] reading.diverges_at(reference, i)
                == diverge(reference.values@[i], reading.values@[i], reading.beyond@[i]),
        agrees(reading, reference) <==> agrees_by_its_tolerance(reading, reference),
        reading.finding(reference) is None <==> agrees_by_its_tolerance(reading, reference),
{
    no_finding_is_agreement(reading, reference);
    if agrees(reading, reference) {
        assert forall|i: int| 0 <= i < reference.values@.len() implies !diverge(
            reference.values@[i],
            #[trigger] reading.values@[i],
            reading.beyond@[i],
        ) by {
            assert(!reading.diverges_at(reference, i));
        }
    }
    if agrees_by_its_tolerance(reading, reference) {
        assert forall|i: int| 0 <= i < reference.values@.len() implies
            !#[trigger] reading.diverges_at(reference, i) by {
            assert(!diverge(reference.values@[i], reading.values@[i], reading.beyond@[i]));
        }
    }
}

/// Nothing is reported of a number of results exactly when every one agrees with the
/// first: no other length, and no diverging element.
pub proof fn no_report_is_agreement(results: Seq<Reading>)
    requires
        results.len() <= usize::MAX,
    ensures
        findings(results, results.len() as int).len() == 0 <==> forall|t: int|
            1 <= t < results.len() ==> agrees(#[trigger] results[t], results[0]),
{
    let n = results.len() as int;
    let report = findings(results, n);
    every_diverging_target_is_reported(results, n);
    if report.len() == 0 {
        assert forall|t: int| 1 <= t < n implies agrees(#[trigger] results[t], results[0]) by {
            no_finding_is_agreement(results[t], results[0]);
            if results[t].finding(results[0]) is Some {
                let k = choose|k: int|
                    0 <= k < findings(results, n).len() && (#[trigger] findings(results, n)[k]).run
                        == t;
                assert(false);
            }
        }
    } else {
        let t = report[0].run as int;
        no_finding_is_agreement(results[t], results[0]);
        assert(!agrees(results[t], results[0]));
    }
}

/// A tensor run ends without failure or report exactly when every target returned, and
/// each returned as many elements as the first, none of them diverging. With no target,
/// or one that returned, there is nothing to report.
pub proof fn a_tensor_run_passes_exactly_on_agreement(
    outcomes: Seq<Result<Reading, String>>,
)
    requires
        outcomes.len() <= usize::MAX,
    ensures
        all_returned(outcomes) && findings(returned(outcomes), outcomes.len() as int).len() == 0
            <==> {
            &&& all_returned(outcomes)
            &&& forall|t: int|
                1 <= t < outcomes.len() ==> agrees(
                    (#[trigger] outcomes[t])->Ok_0,
                    outcomes[0]->Ok_0,
                )
        },
{
    let results = returned(outcomes);
    no_report_is_agreement(results);
    if forall|t: int| 1 <= t < results.len() ==> agrees(#[trigger] results[t], results[0]) {
        assert forall|t: int| 1 <= t < outcomes.len() implies agrees(
            (#[trigger] outcomes[t])->Ok_0,
            outcomes[0]->Ok_0,
        ) by {
            assert(agrees(results[t], results[0]));
        }
    } else {
        let t = choose|t: int|
            1 <= t < results.len() && !agrees(#[trigger] results[t], results[0]);
        assert(!agrees(outcomes[t]->Ok_0, outcomes[0]->Ok_0));
    }
}

/// An autograd run whose targets all returned ends in agreement exactly when each
/// returned as many leaves as the first, and each leaf with as many elements as the
/// first target's, none of them diverging. No target at all is agreement.
pub proof fn an_autograd_run_passes_exactly_on_agreement(
    runs: Seq<Vec<Reading>>,
    verdict: GradVerdict,
)
    requires
        runs.len() <= usize::MAX,
        is_verdict(runs, verdict),
    ensures
        verdict is Agree <==> forall|t: int|
            1 <= t < runs.len() ==> {
                &&& (#[trigger] runs[t])@.len() == runs[0]@.len()
                &&& forall|l: int|
                    0 <= l < runs[0]@.len() ==> agrees(#[trigger] runs[t]@[l], runs[0]@[l])
            },
{
    if runs.len() > 0 {
        agreement_means_no_finding(runs, verdict);
        assert forall|l: int| 0 <= l < runs[0]@.len() implies ((#[trigger] leaf_findings(
            runs,
            l,
        )).len() == 0 <==> forall|t: int|
            1 <= t < runs.len() ==> agrees((#[trigger] runs[t])@[l], runs[0]@[l])) by {
            no_report_is_agreement(column(runs, l));
            if forall|t: int| 1 <= t < runs.len() ==> agrees((#[trigger] runs[t])@[l], runs[0]@[l]) {
                assert forall|t: int| 1 <= t < runs.len() implies agrees(
                    #[trigger] column(runs, l)[t],
                    column(runs, l)[0],
                ) by {
                    assert(agrees(runs[t]@[l], runs[0]@[l]));
                }
            } else {
                let t = choose|t: int|
                    1 <= t < runs.len() && !agrees((#[trigger] runs[t])@[l], runs[0]@[l]);
                assert(!agrees(column(runs, l)[t], column(runs, l)[0]));
            }
        }
        if verdict is Agree {
            assert forall|t: int| 1 <= t < runs.len() implies {
                &&& (#[trigger] runs[t])@.len() == runs[0]@.len()
                &&& forall|l: int|
                    0 <= l < runs[0]@.len() ==> agrees(#[trigger] runs[t]@[l], runs[0]@[l])
            } by {
                assert(counts_agree(runs, t));
                assert forall|l: int| 0 <= l < runs[0]@.len() implies agrees(
                    #[trigger] runs[t]@[l],
                    runs[0]@[l],
                ) by {
                    assert(leaf_findings(runs, l).len() == 0);
                }
            }
        } else if forall|t: int|
            1 <= t < runs.len() ==> {
                &&& (#[trigger] runs[t])@.len() == runs[0]@.len()
                &&& forall|l: int|
                    0 <= l < runs[0]@.len() ==> agrees(#[trigger] runs[t]@[l], runs[0]@[l])
            } {
            assert forall|t: int| 0 <= t < runs.len() implies #[trigger] counts_agree(runs, t) by {
                if t > 0 {
                    assert(runs[t]@.len() == runs[0]@.len());
                }
            }
            assert forall|l: int| 0 <= l < runs[0]@.len() implies (#[trigger] leaf_findings(
                runs,
                l,
            )).len() == 0 by {
                assert forall|t: int| 1 <= t < runs.len() implies agrees(
                    (#[trigger] runs[t])@[l],
                    runs[0]@[l],
                ) by {
                    assert(agrees(runs[t]@[l], runs[0]@[l]));
                }
            }
        }
    }
}

/// A tensor run whose readings are complete ends without failure or report exactly when
/// every target returned, and each agrees with the first by its tolerance tests.
pub proof fn a_complete_tensor_run_passes_by_the_tolerance(outcomes: Seq<Result<Reading, String>>)
    requires
        outcomes.len() <= usize::MAX,
        forall|t: int|
            1 <= t < outcomes.len() ==> ((#[trigger] outcomes[t]) matches Ok(reading)
                ==> reading.complete()),
    ensures
        all_returned(outcomes) && findings(returned(outcomes), outcomes.len() as int).len() == 0
            <==> {
            &&& all_returned(outcomes)
            &&& forall|t: int|
                1 <= t < outcomes.len() ==> agrees_by_its_tolerance(
                    (#[trigger] outcomes[t])->Ok_0,
                    outcomes[0]->Ok_0,
                )
        },
{
    a_tensor_run_passes_exactly_on_agreement(outcomes);
    if all_returned(outcomes) {
        assert forall|t: int| 1 <= t < outcomes.len() implies (agrees(
            (#[trigger] outcomes[t])->Ok_0,
            outcomes[0]->Ok_0,
        ) <==> agrees_by_its_tolerance(outcomes[t]->Ok_0, outcomes[0]->Ok_0)) by {
            a_complete_reading_is_judged_by_its_tolerance(outcomes[t]->Ok_0, outcomes[0]->Ok_0);
        }
    }
}

/// An autograd run whose readings are complete ends in agreement exactly when each target
/// returned as many leaves as the first, and each leaf agrees with the first target's by
/// its tolerance tests.
pub proof fn a_complete_autograd_run_passes_by_the_tolerance(
    runs: Seq<Vec<Reading>>,
    verdict: GradVerdict,
)
    requires
        runs.len() <= usize::MAX,
        is_verdict(runs, verdict),
        forall|t: int, l: int|
            1 <= t < runs.len() && 0 <= l < runs[t]@.len() ==> (
            #[trigger] runs[t]@[l]).complete(),
    ensures
        verdict is Agree <==> forall|t: int|
            1 <= t < runs.len() ==> {
                &&& (#[trigger] runs[t])@.len() == runs[0]@.len()
                &&& forall|l: int|
                    0 <= l < runs[0]@.len() ==> agrees_by_its_tolerance(
                        #[trigger] runs[t]@[l],
                        runs[0]@[l],
                    )
            },
{
    an_autograd_run_passes_exactly_on_agreement(runs, verdict);
    assert forall|t: int, l: int|
        1 <= t < runs.len() && 0 <= l < runs[t]@.len() implies (agrees(
        #[trigger] runs[t]@[l],
        runs[0]@[l],
    ) <==> agrees_by_its_tolerance(runs[t]@[l], runs[0]@[l])) by {
        a_complete_reading_is_judged_by_its_tolerance(runs[t]@[l], runs[0]@[l]);
    }
}

/// What a finding says: a reading of another length is reported by the two lengths; one of
/// the same length by the number of its diverging elements, how many elements there are,
/// and the least index at which one diverges.
pub proof fn a_finding_counts_what_diverges(reading: Reading, reference: Reading)
    ensures
        ({
            let len = reading.values@.len();
            let expected = reference.values@.len();
            let bad = Set::<int>::new(
                |i: int| 0 <= i < len && reading.diverges_at(reference, i),
            );
            match reading.finding(reference) {
                Some(Finding::Length { len: l, expected: e }) => l == len && e == expected && len
                    != expected,
                Some(Finding::Values { count, total, first }) => {
                    &&& len == expected
                    &&& total == len
                    &&& bad.finite()
                    &&& count == bad.len()
                    &&& 0 < count <= total
                    &&& first < total
                    &&& reading.diverges_at(reference, first as int)
                    &&& forall|i: int|
                        0 <= i < first ==> !#[trigger] reading.diverges_at(reference, i)
                },
                None => len == expected && forall|i: int|
                    0 <= i < len ==> !#[trigger] reading.diverges_at(reference, i),
            }
        }),
{
    let n = reading.values@.len() as int;
    let all = reading.diverging(reference, n);
    no_finding_is_agreement(reading, reference);
    diverging_elements_are_exact(reading, reference, n);
    diverging_elements_are_counted(reading, reference, n);
    let len = reading.values@.len();
    assert(reading.values.len() == len);
    assert(reference.values.len() == reference.values@.len());
    assert(Set::<int>::new(|i: int| 0 <= i < len && reading.diverges_at(reference, i))
        =~= Set::<int>::new(|i: int| 0 <= i < n && reading.diverges_at(reference, i)));
    if reading.values@.len() == reference.values@.len() && all.len() > 0 {
        assert(all.contains(all[0]));
        assert forall|i: int| 0 <= i < all[0] implies !#[trigger] reading.diverges_at(
            reference,
            i,
        ) by {
            if reading.diverges_at(reference, i) {
                assert(all.contains(i));
                let k = all.index_of(i);
                assert(all[k] == i);
                assert(all[0] <= all[k]);
            }
        }
    }
}

proof fn diverging_elements_are_counted(reading: Reading, reference: Reading, n: int)
    requires
        0 <= n,
    ensures
        ({
            let bad = Set::<int>::new(|i: int| 0 <= i < n && reading.diverges_at(reference, i));
            &&& bad.finite()
            &&& bad.len() == reading.diverging(reference, n).len()
            &&& bad.len() <= n
        }),
    decreases n,
{
    let bad = Set::<int>::new(|i: int| 0 <= i < n && reading.diverges_at(reference, i));
    if n == 0 {
        assert(bad =~= Set::<int>::empty());
    } else {
        diverging_elements_are_counted(reading, reference, n - 1);
        let less = Set::<int>::new(|i: int| 0 <= i < n - 1 && reading.diverges_at(reference, i));
        if reading.diverges_at(reference, n - 1) {
            assert(bad =~= less.insert(n - 1));
        } else {
            assert(bad =~= less);
        }
    }
}

/// A report on several results names every target that does not agree with the first, with
/// its own finding, each once and in the order of the targets, and no target that agrees.
pub proof fn a_report_names_whoever_disagrees(results: Seq<Reading>)
    requires
        results.len() <= usize::MAX,
    ensures
        ({
            let report = findings(results, results.len() as int);
            &&& forall|t: int|
                1 <= t < results.len() && !agrees(#[trigger] results[t], results[0]) ==> exists|
                    k: int,
                |
                    0 <= k < report.len() && (#[trigger] report[k]).run == t
            &&& forall|k: int|
                0 <= k < report.len() ==> {
                    let d = #[trigger] report[k];
                    &&& 1 <= d.run < results.len()
                    &&& !agrees(results[d.run as int], results[0])
                    &&& results[d.run as int].finding(results[0]) == Some(d.finding)
                }
            &&& forall|j: int, k: int|
                0 <= j < k < report.len() ==> (#[trigger] report[j]).run < (
                #[trigger] report[k]).run
        }),
{
    let n = results.len() as int;
    let report = findings(results, n);
    every_diverging_target_is_reported(results, n);
    assert forall|t: int|
        1 <= t < n && !agrees(#[trigger] results[t], results[0]) implies exists|k: int|
        0 <= k < report.len() && (#[trigger] report[k]).run == t by {
        no_finding_is_agreement(results[t], results[0]);
        assert(results[t].finding(results[0]) is Some);
    }
    assert forall|k: int| 0 <= k < report.len() implies {
        let d = #[trigger] report[k];
        &&& 1 <= d.run < results.len()
        &&& !agrees(results[d.run as int], results[0])
        &&& results[d.run as int].finding(results[0]) == Some(d.finding)
    } by {
        no_finding_is_agreement(results[report[k].run as int], results[0]);
    }
}

/// A verdict of divergence is about the first leaf on which some target does not agree
/// with the first target, and its report names every target that does not agree there,
/// with its own finding, each once and in the order of the targets, and no other.
pub proof fn a_divergence_names_every_target_that_disagrees(
    runs: Seq<Vec<Reading>>,
    verdict: GradVerdict,
)
    requires
        runs.len() <= usize::MAX,
        is_verdict(runs, verdict),
    ensures
        verdict matches GradVerdict::Diverged { leaf, report } ==> {
            &&& forall|t: int|
                0 <= t < runs.len() ==> (#[trigger] runs[t])@.len() == runs[0]@.len()
            &&& leaf < runs[0]@.len()
            &&& report@.len() > 0
            &&& forall|t: int|
                1 <= t < runs.len() && !agrees(
                    (#[trigger] runs[t])@[leaf as int],
                    runs[0]@[leaf as int],
                ) ==> exists|k: int| 0 <= k < report@.len() && (#[trigger] report@[k]).run == t
            &&& forall|k: int|
                0 <= k < report@.len() ==> {
                    let d = #[trigger] report@[k];
                    let reading = runs[d.run as int]@[leaf as int];
                    &&& 1 <= d.run < runs.len()
                    &&& !agrees(reading, runs[0]@[leaf as int])
                    &&& reading.finding(runs[0]@[leaf as int]) == Some(d.finding)
                }
            &&& forall|j: int, k: int|
                0 <= j < k < report@.len() ==> (#[trigger] report@[j]).run < (
                #[trigger] report@[k]).run
            &&& forall|t: int, l: int|
                1 <= t < runs.len() && 0 <= l < leaf ==> agrees(
                    #[trigger] runs[t]@[l],
                    runs[0]@[l],
                )
        },
{
    if let GradVerdict::Diverged { leaf, report } = verdict {
        let l = leaf as int;
        let col = column(runs, l);
        a_report_names_whoever_disagrees(col);
        assert forall|t: int| 0 <= t < runs.len() implies (#[trigger] runs[t])@.len()
            == runs[0]@.len() by {
            assert(counts_agree(runs, t));
        }
        assert forall|t: int|
            1 <= t < runs.len() && !agrees(
                (#[trigger] runs[t])@[l],
                runs[0]@[l],
            ) implies exists|k: int| 0 <= k < report@.len() && (#[trigger] report@[k]).run == t by {
            assert(col[t] == runs[t]@[l]);
        }
        assert forall|k: int| 0 <= k < report@.len() implies {
            let d = #[trigger] report@[k];
            let reading = runs[d.run as int]@[l];
            &&& 1 <= d.run < runs.len()
            &&& !agrees(reading, runs[0]@[l])
            &&& reading.finding(runs[0]@[l]) == Some(d.finding)
        } by {
            let d = report@[k];
            assert(col[d.run as int] == runs[d.run as int]@[l]);
        }
        assert forall|t: int, m: int| 1 <= t < runs.len() && 0 <= m < leaf implies agrees(
            #[trigger] runs[t]@[m],
            runs[0]@[m],
        ) by {
            assert(leaf_findings(runs, m).len() == 0);
            no_report_is_agreement(column(runs, m));
            assert(agrees(column(runs, m)[t], column(runs, m)[0]));
        }
    }
}

/// A verdict about numbers of leaves names the first target that returned another number
/// of leaves than the first target, and comes whenever there is one.
pub proof fn a_leaf_count_names_the_first_that_differs(
    runs: Seq<Vec<Reading>>,
    verdict: GradVerdict,
)
    requires
        is_verdict(runs, verdict),
    ensures
        verdict is LeafCount <==> exists|t: int|
            0 <= t < runs.len() && (#[trigger] runs[t])@.len() != runs[0]@.len(),
        verdict matches GradVerdict::LeafCount { run } ==> {
            &&& 1 <= run < runs.len()
            &&& runs[run as int]@.len() != runs[0]@.len()
            &&& forall|t: int| 0 <= t < run ==> (#[trigger] runs[t])@.len() == runs[0]@.len()
        },
{
    match verdict {
        GradVerdict::LeafCount { run } => {
            assert(!counts_agree(runs, run as int));
            assert(runs[run as int]@.len() != runs[0]@.len());
            assert forall|t: int| 0 <= t < run implies (#[trigger] runs[t])@.len()
                == runs[0]@.len() by {
                assert(counts_agree(runs, t));
            }
        },
        _ => {
            assert forall|t: int| 0 <= t < runs.len() implies (#[trigger] runs[t])@.len()
                == runs[0]@.len() by {
                assert(counts_agree(runs, t));
            }
        },
    }
}

/// When two elements disagree, by the fields of their bits: the eight bits above the lower
/// 23 are all set in what is no finite number, and the lower 23 are all clear in an
/// infinity. Whatever is no number agrees with whatever is no number; an infinity agrees
/// with itself; any other pair with something not finite in it disagrees; and of finite
/// numbers the tolerance test decides.
pub proof fn elements_disagree_by_their_bits(a: u32, b: u32, beyond: bool)
    ensures
        ({
            let exponent = |x: u32| (x as int / 8388608) % 256;
            let fraction = |x: u32| x as int % 8388608;
            let finite = |x: u32| exponent(x) != 255;
            let not_a_number = |x: u32| exponent(x) == 255 && fraction(x) != 0;
            &&& finite(a) && finite(b) ==> diverge(a, b, beyond) == beyond
            &&& not_a_number(a) && not_a_number(b) ==> !diverge(a, b, beyond)
            &&& not_a_number(a) != not_a_number(b) ==> diverge(a, b, beyond)
            &&& !not_a_number(a) && !not_a_number(b) && !(finite(a) && finite(b)) ==> diverge(
                a,
                b,
                beyond,
            ) == (a != b)
        }),
{
}

/// An element is compared with the reference's in the same place, by its own outcome of
/// the tolerance test, and without one is within the tolerance.
pub proof fn an_element_is_compared_in_its_place(reading: Reading, reference: Reading, i: int)
    requires
        0 <= i < reading.values@.len(),
    ensures
        i < reading.beyond@.len() ==> reading.diverges_at(reference, i) == diverge(
            reference.values@[i],
            reading.values@[i],
            reading.beyond@[i],
        ),
        i >= reading.beyond@.len() ==> reading.diverges_at(reference, i) == diverge(
            reference.values@[i],
            reading.values@[i],
            false,
        ),
{
}

/// The lines of a report stand in it in their order, one below the other: a report on one
/// line is that line, and each further line comes after a line break.
pub proof fn lines_are_joined_in_order(lines: Seq<String>, k: int)
    requires
        0 <= k <= lines.len(),
    ensures
        k == 0 ==> joined_lines(lines, k).len() == 0,
        k == 1 ==> joined_lines(lines, k) == lines[0]@,
        k >= 2 ==> joined_lines(lines, k) == joined_lines(lines, k - 1) + "\n"@ + lines[k - 1]@,
        (forall|i: int| 0 <= i < k ==> crate::text::lacks(#[trigger] lines[i]@, '\n')) && k >= 1
            ==> crate::text::split(joined_lines(lines, k), '\n') == Seq::new(
            k as nat,
            |i: int| lines[i]@,
        ),
    decreases k,
{
    reveal_strlit("");
    let all = Seq::new(k as nat, |i: int| lines[i]@);
    if (forall|i: int| 0 <= i < k ==> crate::text::lacks(#[trigger] lines[i]@, '\n')) && k >= 1 {
        if k == 1 {
            let nothing = Seq::<char>::empty();
            assert(crate::text::split(nothing, '\n') =~= seq![nothing]);
            crate::text::split_extended(nothing, lines[0]@, '\n');
            assert(nothing + lines[0]@ =~= lines[0]@);
            assert(crate::text::split(lines[0]@, '\n') =~= all);
        } else {
            lines_are_joined_in_order(lines, k - 1);
            reveal_strlit("\n");
            let before = joined_lines(lines, k - 1);
            let less = Seq::new((k - 1) as nat, |i: int| lines[i]@);
            let broken = before + "\n"@;
            assert(broken.drop_last() =~= before);
            assert(broken.last() == '\n');
            assert(crate::text::split(broken, '\n') == less.push(Seq::empty()));
            crate::text::last_line_appended(broken, less, lines[k - 1]@);
            assert(less.push(lines[k - 1]@) =~= all);
        }
    }
}

/// A line of a report says first what is compared, and then which target, by name, differs
/// from which: by its number of elements and the other's, or by how many of its elements
/// diverge, of how many, with the index of the first and the two values there, the
/// target's own before the reference's.
pub proof fn a_line_of_a_report_says_what_was_found(
    d: Divergence,
    label: Seq<char>,
    name: Seq<char>,
    reference: Seq<char>,
    shown: Seq<char>,
    reference_shown: Seq<char>,
)
    ensures
        ({
            let line = d.text(label, name, reference, shown, reference_shown);
            let subject = label + ": "@ + name;
            &&& crate::text::begins_with(line, subject)
            &&& match d.finding {
                Finding::Length { len, expected } => line.skip(subject.len() as int)
                    == " produced "@ + crate::text::decimal(len as int) + " elements, "@
                    + reference + " produced "@ + crate::text::decimal(expected as int),
                Finding::Values { count, total, first } => line.skip(subject.len() as int)
                    == " diverges from "@ + reference + " at "@ + crate::text::decimal(
                    count as int,
                ) + "/"@ + crate::text::decimal(total as int) + " elements (first at ["@
                    + crate::text::decimal(first as int) + "]: "@ + name + "="@ + shown + ", "@
                    + reference + "="@ + reference_shown + ")"@,
            }
        }),
{
    let line = d.text(label, name, reference, shown, reference_shown);
    let subject = label + ": "@ + name;
    assert(line.take(subject.len() as int) =~= subject);
    match d.finding {
        Finding::Length { len, expected } => {
            assert(line.skip(subject.len() as int) =~= " produced "@ + crate::text::decimal(
                len as int,
            ) + " elements, "@ + reference + " produced "@ + crate::text::decimal(
                expected as int,
            ));
        },
        Finding::Values { count, total, first } => {
            assert(line.skip(subject.len() as int) =~= " diverges from "@ + reference + " at "@
                + crate::text::decimal(count as int) + "/"@ + crate::text::decimal(total as int)
                + " elements (first at ["@ + crate::text::decimal(first as int) + "]: "@ + name
                + "="@ + shown + ", "@ + reference + "="@ + reference_shown + ")"@);
        },
    }
}

/// Whoever settles the outcomes of several targets has, if none failed, what each
/// returned, in its place; and otherwise the message of the failure that no other failure
/// comes before.
pub proof fn outcomes_are_settled_in_order<T>(outcomes: Seq<Result<T, String>>)
    ensures
        all_returned(outcomes) ==> returned(outcomes).len() == outcomes.len() && forall|t: int|
            0 <= t < outcomes.len() ==> (#[trigger] outcomes[t]) == Ok::<T, String>(
                returned(outcomes)[t],
            ),
        !all_returned(outcomes) ==> exists|t: int|
            0 <= t < outcomes.len() && (#[trigger] outcomes[t]) is Err && forall|s: int|
                0 <= s < t ==> (#[trigger] outcomes[s]) is Ok,
        forall|m: String, t: int|
            #![trigger is_first_failure(outcomes, m), outcomes[t]]
            is_first_failure(outcomes, m) && 0 <= t < outcomes.len() && (forall|s: int|
                0 <= s < t ==> (#[trigger] outcomes[s]) is Ok) && outcomes[t] is Err ==> outcomes[t]
                == Err::<T, String>(m),
{
    if !all_returned(outcomes) {
        let t = choose|t: int| 0 <= t < outcomes.len() && !((#[trigger] outcomes[t]) is Ok);
        the_first_failure_exists(outcomes, t);
    }
    assert forall|m: String, t: int|
        #![trigger is_first_failure(outcomes, m), outcomes[t]]
        is_first_failure(outcomes, m) && 0 <= t < outcomes.len() && (forall|s: int|
            0 <= s < t ==> (#[trigger] outcomes[s]) is Ok) && outcomes[t] is Err implies outcomes[t]
        == Err::<T, String>(m) by {
        let u = choose|u: int|
            0 <= u < outcomes.len() && (#[trigger] outcomes[u]) == Err::<T, String>(m) && forall|
                s: int,
            |
                0 <= s < u ==> (#[trigger] outcomes[s]) is Ok;
        assert(outcomes[u] is Err);
        assert(u == t);
    }
}

proof fn the_first_failure_exists<T>(outcomes: Seq<Result<T, String>>, t: int)
    requires
        0 <= t < outcomes.len(),
        outcomes[t] is Err,
    ensures
        exists|u: int|
            0 <= u < outcomes.len() && (#[trigger] outcomes[u]) is Err && forall|s: int|
                0 <= s < u ==> (#[trigger] outcomes[s]) is Ok,
    decreases t,
{
    if exists|s: int| 0 <= s < t && !((#[trigger] outcomes[s]) is Ok) {
        let s = choose|s: int| 0 <= s < t && !((#[trigger] outcomes[s]) is Ok);
        the_first_failure_exists(outcomes, s);
    }
}

/// The gradient of a leaf is labelled by the register of that number, so that different
/// leaves are labelled differently.
pub proof fn labels_name_their_leaf(leaf: int, other: int)
    requires
        0 <= leaf,
        0 <= other,
    ensures
        label_text(leaf) == "grad "@ + crate::ops::reg_text(leaf),
        label_text(leaf) == label_text(other) ==> leaf == other,
{
    reveal_strlit("grad r");
    reveal_strlit("grad ");
    reveal_strlit("r");
    assert(label_text(leaf) =~= "grad "@ + crate::ops::reg_text(leaf));
    assert(label_text(leaf).skip(6) =~= crate::text::decimal(leaf));
    assert(label_text(other).skip(6) =~= crate::text::decimal(other));
    crate::text::decimal_is_digits(leaf);
    crate::text::decimal_is_digits(other);
}

/// A message about numbers of leaves names the reference with its number before the target
/// with its own.
pub proof fn leaf_counts_are_shown_by_name(
    reference: Seq<char>,
    expected: int,
    name: Seq<char>,
    count: int,
)
    ensures
        ({
            let text = leaf_counts_text(reference, expected, name, count);
            let front = "leaf count mismatch: "@ + (reference + "="@ + crate::text::decimal(
                expected,
            ));
            let back = name + "="@ + crate::text::decimal(count);
            &&& crate::text::begins_with(text, front)
            &&& text.skip(front.len() as int) == ", "@ + back
        }),
{
    let text = leaf_counts_text(reference, expected, name, count);
    let front = "leaf count mismatch: "@ + (reference + "="@ + crate::text::decimal(expected));
    let back = name + "="@ + crate::text::decimal(count);
    assert(text =~= front + (", "@ + back));
    assert(text.take(front.len() as int) =~= front);
    assert(text.skip(front.len() as int) =~= ", "@ + back);
}

/// The message of a divergence is a line that says so and, below it, the lines of the report
/// in their order.
pub proof fn a_divergence_is_reported_line_by_line(lines: Seq<String>)
    requires
        lines.len() >= 1,
        forall|i: int| 0 <= i < lines.len() ==> crate::text::lacks(#[trigger] lines[i]@, '\n'),
    ensures
        crate::text::split(divergence_message(lines), '\n') == seq!["differential divergence:"@]
            + Seq::new(lines.len(), |i: int| lines[i]@),
{
    let n = lines.len() as int;
    let body = joined_lines(lines, n);
    let title = "differential divergence:"@;
    lines_are_joined_in_order(lines, n);
    reveal_strlit("differential divergence:");
    reveal_strlit("differential divergence:\n");
    assert(divergence_message(lines) =~= title.push('\n') + body);
    crate::text::pieces_of_joined_texts(title, body, '\n');
    let nothing = Seq::<char>::empty();
    assert(crate::text::split(nothing, '\n') =~= seq![nothing]);
    crate::text::split_extended(nothing, title, '\n');
    assert(nothing + title =~= title);
    assert(crate::text::split(title, '\n') =~= seq![title]);
}

/// The readings that are compared are the ones referred to, each in its place.
pub proof fn readings_are_compared_in_their_places(results: Seq<&Reading>, i: int)
    requires
        0 <= i < results.len(),
    ensures
        referents(results).len() == results.len(),
        referents(results)[i] == *results[i],
{
}

/// Outcomes are settled by what each target returned, in its place, if all did, and
/// otherwise by the message of the failure that no other failure comes before.
pub proof fn what_outcomes_are_settled_by<T>(
    outcomes: Seq<Result<T, String>>,
    r: Result<Vec<T>, String>,
)
    requires
        is_settled(outcomes, r),
    ensures
        match r {
            Ok(values) => values@.len() == outcomes.len() && forall|t: int|
                0 <= t < outcomes.len() ==> (#[trigger] outcomes[t]) == Ok::<T, String>(values@[t]),
            Err(message) => exists|t: int|
                0 <= t < outcomes.len() && (#[trigger] outcomes[t]) == Err::<T, String>(message)
                    && forall|s: int| 0 <= s < t ==> (#[trigger] outcomes[s]) is Ok,
        },
{
    outcomes_are_settled_in_order(outcomes);
}

/// A tensor run hands back what each target returned, in its place, and a report that names
/// every target that does not agree with the first, with its own finding, in order, and no
/// other.
pub proof fn a_tensor_run_reports_whoever_disagrees(
    outcomes: Seq<Result<Reading, String>>,
    r: Result<(Vec<Reading>, Vec<Divergence>), String>,
)
    requires
        outcomes.len() <= usize::MAX,
        is_tensor_outcome(outcomes, r),
    ensures
        match r {
            Ok(run) => {
                let results = run.0@;
                let report = run.1@;
                &&& results.len() == outcomes.len()
                &&& forall|t: int|
                    0 <= t < outcomes.len() ==> (#[trigger] outcomes[t]) == Ok::<Reading, String>(
                        results[t],
                    )
                &&& forall|t: int|
                    1 <= t < results.len() && !agrees(#[trigger] results[t], results[0])
                        ==> exists|k: int|
                        0 <= k < report.len() && (#[trigger] report[k]).run == t
                &&& forall|k: int|
                    0 <= k < report.len() ==> {
                        let d = #[trigger] report[k];
                        &&& 1 <= d.run < results.len()
                        &&& !agrees(results[d.run as int], results[0])
                        &&& results[d.run as int].finding(results[0]) == Some(d.finding)
                    }
                &&& forall|j: int, k: int|
                    0 <= j < k < report.len() ==> (#[trigger] report[j]).run < (
                    #[trigger] report[k]).run
            },
            Err(message) => exists|t: int|
                0 <= t < outcomes.len() && (#[trigger] outcomes[t]) == Err::<Reading, String>(
                    message,
                ) && forall|s: int| 0 <= s < t ==> (#[trigger] outcomes[s]) is Ok,
        },
{
    outcomes_are_settled_in_order(outcomes);
    if r is Ok {
        a_report_names_whoever_disagrees(returned(outcomes));
    }
}

/// An autograd run hands back what each target returned, in its place, and the verdict on
/// it.
pub proof fn an_autograd_run_judges_what_was_returned(
    outcomes: Seq<Result<Vec<Reading>, String>>,
    r: Result<(Vec<Vec<Reading>>, GradVerdict), String>,
)
    requires
        is_grad_outcome(outcomes, r),
    ensures
        match r {
            Ok(run) => {
                &&& run.0@.len() == outcomes.len()
                &&& forall|t: int|
                    0 <= t < outcomes.len() ==> (#[trigger] outcomes[t]) == Ok::<
                        Vec<Reading>,
                        String,
                    >(run.0@[t])
                &&& is_verdict(run.0@, run.1)
            },
            Err(message) => exists|t: int|
                0 <= t < outcomes.len() && (#[trigger] outcomes[t]) == Err::<Vec<Reading>, String>(
                    message,
                ) && forall|s: int| 0 <= s < t ==> (#[trigger] outcomes[s]) is Ok,
        },
{
    outcomes_are_settled_in_order(outcomes);
}

} // verus!
