//! The three reports on a list of branch weights, and the text of a size.

use crate::error::Error;
use crate::objects::BranchWeight;
use vstd::prelude::*;

verus! {

/// The number of bytes in a megabyte.
pub const BYTES_PER_MB: u64 = 1048576;

/// The spacing of double-precision numbers around `n`: 1 below 2^53, and
/// doubling with each further bit.
pub open spec fn unit_in_last_place(n: nat) -> nat
    decreases n,
{
    if n < 0x20_0000_0000_0000 {
        1
    } else {
        2 * unit_in_last_place(n / 2)
    }
}

/// The quotient `a / d` rounded to the nearest whole number and, half way
/// between two, to the even one.
pub open spec fn round_half_even(a: nat, d: nat) -> nat {
    let q = a / d;
    let r = a % d;
    if 2 * r > d || (2 * r == d && q % 2 == 1) {
        q + 1
    } else {
        q
    }
}

/// The double-precision number nearest to `n`. The megabyte figure of a size
/// is taken at double precision, so a size of 2^53 bytes or more counts as the
/// nearest number that has 53 significant bits.
pub open spec fn nearest_double(n: nat) -> nat {
    round_half_even(n, unit_in_last_place(n)) * unit_in_last_place(n)
}

/// The size in tenths of a megabyte, rounded half to even.
pub open spec fn tenths_of_mb(size: nat) -> nat {
    round_half_even(nearest_double(size) * 10, BYTES_PER_MB as nat)
}

/// The size in hundredths of a megabyte, rounded half to even.
pub open spec fn hundredths_of_mb(size: nat) -> nat {
    round_half_even(nearest_double(size) * 100, BYTES_PER_MB as nat)
}

/// The character of the decimal digit `d`.
pub open spec fn digit_char(d: nat) -> char {
    (0x30 + d) as u8 as char
}

/// The decimal text of `n`, without leading zeros.
pub open spec fn decimal_text(n: nat) -> Seq<char>
    decreases n,
{
    if n < 10 {
        seq![digit_char(n)]
    } else {
        decimal_text(n / 10).push(digit_char(n % 10))
    }
}

/// The text of a size in megabytes: with one decimal place from a tenth of a
/// megabyte on, with two from a hundredth of a megabyte on, and `0 MB` below
/// that.
pub open spec fn size_text(size: nat) -> Seq<char> {
    if size * 10 >= BYTES_PER_MB {
        decimal_text(tenths_of_mb(size) / 10) + seq!['.', digit_char(tenths_of_mb(size) % 10)]
            + " MB"@
    } else if size * 100 >= BYTES_PER_MB {
        decimal_text(hundredths_of_mb(size) / 100) + seq![
            '.',
            digit_char(hundredths_of_mb(size) / 10 % 10),
            digit_char(hundredths_of_mb(size) % 10),
        ] + " MB"@
    } else {
        "0 MB"@
    }
}

/// Divides and rounds half to even.
fn rounded_quotient(a: u128, d: u128) -> (q: u128)
    requires
        0 < d <= 0x1_0000_0000_0000_0000,
        a <= 0x1_0000_0000_0000_0000_0000_0000,
    ensures
        q == round_half_even(a as nat, d as nat),
        q <= a + 1,
{
    let q: u128 = a / d;
    let r: u128 = a % d;
    if 2 * r > d || (2 * r == d && q % 2 == 1) {
        q + 1
    } else {
        q
    }
}

/// The double-precision number nearest to `size`.
fn to_nearest_double(size: u64) -> (n: u128)
    ensures
        n == nearest_double(size as nat),
        n <= 0x1000_0000_0000_0000_0000,
{
    let mut unit: u64 = 1;
    let mut top: u64 = size;
    while top >= 0x20_0000_0000_0000
        invariant
            1 <= unit <= 4096,
            top * unit <= size,
            unit_in_last_place(size as nat) == unit * unit_in_last_place(top as nat),
        decreases top,
    {
        proof {
            let t = top as int;
            let u = unit as int;
            let s = size as int;
            assert(u <= 2047) by (nonlinear_arith)
                requires
                    t >= 0x20_0000_0000_0000,
                    t * u <= s,
                    s <= 0xffff_ffff_ffff_ffff,
                    u >= 1,
            ;
            assert((t / 2) * (2 * u) <= t * u) by (nonlinear_arith)
                requires
                    t >= 0,
                    u >= 1,
            ;
            let rest = unit_in_last_place((top / 2) as nat) as int;
            assert(u * (2 * rest) == (2 * u) * rest) by (nonlinear_arith);
        }
        top = top / 2;
        unit = unit * 2;
    }
    assert(unit_in_last_place(top as nat) == 1);
    assert(unit_in_last_place(size as nat) == unit) by (nonlinear_arith)
        requires
            unit_in_last_place(size as nat) == unit * unit_in_last_place(top as nat),
            unit_in_last_place(top as nat) == 1,
    ;
    let q = rounded_quotient(size as u128, unit as u128);
    proof {
        let qi = q as int;
        let u = unit as int;
        assert(qi * u <= 0x1_0000_0000_0000_0000 * 4096) by (nonlinear_arith)
            requires
                0 <= qi <= 0x1_0000_0000_0000_0000,
                1 <= u <= 4096,
        ;
    }
    q * (unit as u128)
}

/// The character of a decimal digit.
fn digit(d: u128) -> (c: char)
    requires
        d < 10,
    ensures
        c == digit_char(d as nat),
{
    (0x30 + d as u8) as char
}

/// The decimal text of a number.
fn decimal_string(n: u128) -> (text: String)
    ensures
        text@ == decimal_text(n as nat),
    decreases n,
{
    if n < 10 {
        let mut text = String::new();
        text.push(digit(n));
        assert(text@ =~= seq![digit_char(n as nat)]);
        text
    } else {
        let mut text = decimal_string(n / 10);
        text.push(digit(n % 10));
        text
    }
}

/// The text of a size in megabytes.
pub fn format_size_mb(size: u64) -> (text: String)
    ensures
        text@ == size_text(size as nat),
{
    if size >= 104858 {
        let tenths = rounded_quotient(to_nearest_double(size) * 10, BYTES_PER_MB as u128);
        let mut text = decimal_string(tenths / 10);
        text.push('.');
        text.push(digit(tenths % 10));
        text.push(' ');
        text.push('M');
        text.push('B');
        proof {
            reveal_strlit(" MB");
            assert(" MB"@ =~= seq![' ', 'M', 'B']);
            assert(text@ =~= size_text(size as nat));
        }
        text
    } else if size >= 10486 {
        let hundredths = rounded_quotient(to_nearest_double(size) * 100, BYTES_PER_MB as u128);
        let mut text = decimal_string(hundredths / 100);
        text.push('.');
        text.push(digit(hundredths / 10 % 10));
        text.push(digit(hundredths % 10));
        text.push(' ');
        text.push('M');
        text.push('B');
        proof {
            reveal_strlit(" MB");
            assert(" MB"@ =~= seq![' ', 'M', 'B']);
            assert(text@ =~= size_text(size as nat));
        }
        text
    } else {
        "0 MB".to_owned()
    }
}

/// The full report on one branch: its name, its sizes in bytes and as text,
/// and its object counts.
#[derive(Debug, Clone)]
pub struct BranchReport {
    pub branch: String,
    pub total_size_mb: String,
    pub unique_size_mb: String,
    pub shared_size_mb: String,
    pub total_size: u64,
    pub unique_size: u64,
    pub shared_size: u64,
    pub object_count: usize,
    pub unique_object_count: usize,
    pub shared_object_count: usize,
}

/// The light report on one branch: its name and its sizes as text.
#[derive(Debug, Clone)]
pub struct BranchReportLight {
    pub branch: String,
    pub total_size_mb: String,
    pub unique_size_mb: String,
    pub shared_size_mb: String,
}

/// The summary of a list of branch weights.
#[derive(Debug, Clone)]
pub struct Summary {
    pub total_branches: usize,
    pub total_unique_size: u64,
    pub total_unique_size_mb: String,
    pub total_shared_size: u64,
    pub total_shared_size_mb: String,
}

/// Whether `report` is the full report on `weight`.
pub open spec fn is_full_report(report: BranchReport, weight: BranchWeight) -> bool {
    &&& report.branch@ == weight.branch@
    &&& report.total_size_mb@ == size_text(weight.total_size as nat)
    &&& report.unique_size_mb@ == size_text(weight.unique_size as nat)
    &&& report.shared_size_mb@ == size_text(weight.shared_size as nat)
    &&& report.total_size == weight.total_size
    &&& report.unique_size == weight.unique_size
    &&& report.shared_size == weight.shared_size
    &&& report.object_count == weight.object_count
    &&& report.unique_object_count == weight.unique_count
    &&& report.shared_object_count == weight.shared_count
}

/// Whether `report` is the light report on `weight`.
pub open spec fn is_light_report(report: BranchReportLight, weight: BranchWeight) -> bool {
    &&& report.branch@ == weight.branch@
    &&& report.total_size_mb@ == size_text(weight.total_size as nat)
    &&& report.unique_size_mb@ == size_text(weight.unique_size as nat)
    &&& report.shared_size_mb@ == size_text(weight.shared_size as nat)
}

/// The sum of the unique sizes of `weights`.
pub open spec fn unique_total(weights: Seq<BranchWeight>) -> nat
    decreases weights.len(),
{
    if weights.len() == 0 {
        0
    } else {
        unique_total(weights.drop_last()) + weights.last().unique_size as nat
    }
}

/// The sum of the shared sizes of `weights`.
pub open spec fn shared_total(weights: Seq<BranchWeight>) -> nat
    decreases weights.len(),
{
    if weights.len() == 0 {
        0
    } else {
        shared_total(weights.drop_last()) + weights.last().shared_size as nat
    }
}

/// Whether `summary` is the summary of `weights`.
pub open spec fn is_summary(summary: Summary, weights: Seq<BranchWeight>) -> bool {
    &&& summary.total_branches == weights.len()
    &&& summary.total_unique_size == unique_total(weights)
    &&& summary.total_unique_size_mb@ == size_text(unique_total(weights))
    &&& summary.total_shared_size == shared_total(weights)
    &&& summary.total_shared_size_mb@ == size_text(shared_total(weights))
}

/// The sums over the first weights are no more than the sums over all.
pub proof fn lemma_totals_grow(weights: Seq<BranchWeight>, k: int)
    requires
        0 <= k <= weights.len(),
    ensures
        unique_total(weights.take(k)) <= unique_total(weights),
        shared_total(weights.take(k)) <= shared_total(weights),
    decreases weights.len() - k,
{
    if k < weights.len() {
        lemma_totals_grow(weights, k + 1);
        assert(weights.take(k + 1).drop_last() =~= weights.take(k));
    } else {
        assert(weights.take(k) =~= weights);
    }
}

/// The full report on one branch.
pub fn full_report(weight: &BranchWeight) -> (report: BranchReport)
    ensures
        is_full_report(report, *weight),
{
    BranchReport {
        branch: weight.branch.clone(),
        total_size_mb: format_size_mb(weight.total_size),
        unique_size_mb: format_size_mb(weight.unique_size),
        shared_size_mb: format_size_mb(weight.shared_size),
        total_size: weight.total_size,
        unique_size: weight.unique_size,
        shared_size: weight.shared_size,
        object_count: weight.object_count,
        unique_object_count: weight.unique_count,
        shared_object_count: weight.shared_count,
    }
}

/// The light report on one branch.
pub fn light_report(weight: &BranchWeight) -> (report: BranchReportLight)
    ensures
        is_light_report(report, *weight),
{
    BranchReportLight {
        branch: weight.branch.clone(),
        total_size_mb: format_size_mb(weight.total_size),
        unique_size_mb: format_size_mb(weight.unique_size),
        shared_size_mb: format_size_mb(weight.shared_size),
    }
}

/// The full reports on the branches, in their order.
pub fn full_reports(branches: &Vec<BranchWeight>) -> (reports: Vec<BranchReport>)
    ensures
        reports.len() == branches.len(),
        forall|i: int|
            0 <= i < reports.len() ==> is_full_report(#[trigger] reports[i], branches[i]),
{
    let mut reports: Vec<BranchReport> = Vec::new();
    let mut i: usize = 0;
    while i < branches.len()
        invariant
            i <= branches.len(),
            reports.len() == i,
            forall|k: int| 0 <= k < i ==> is_full_report(#[trigger] reports[k], branches[k]),
        decreases branches.len() - i,
    {
        reports.push(full_report(&branches[i]));
        i = i + 1;
    }
    reports
}

/// The light reports on the branches, in their order.
pub fn light_reports(branches: &Vec<BranchWeight>) -> (reports: Vec<BranchReportLight>)
    ensures
        reports.len() == branches.len(),
        forall|i: int|
            0 <= i < reports.len() ==> is_light_report(#[trigger] reports[i], branches[i]),
{
    let mut reports: Vec<BranchReportLight> = Vec::new();
    let mut i: usize = 0;
    while i < branches.len()
        invariant
            i <= branches.len(),
            reports.len() == i,
            forall|k: int| 0 <= k < i ==> is_light_report(#[trigger] reports[k], branches[k]),
        decreases branches.len() - i,
    {
        reports.push(light_report(&branches[i]));
        i = i + 1;
    }
    reports
}

/// The summary of the branches: how many there are, and the sums of their
/// unique and of their shared sizes, in bytes and as text.
///
/// Fails with `Error::SizeOverflow` exactly when one of the two sums is
/// beyond what 64 bits hold.
pub fn summarize(branches: &Vec<BranchWeight>) -> (r: Result<Summary, Error>)
    ensures
        match r {
            Ok(summary) => is_summary(summary, branches@),
            Err(e) => e == Error::SizeOverflow && (unique_total(branches@) > u64::MAX
                || shared_total(branches@) > u64::MAX),
        },
{
    let mut total_unique: u64 = 0;
    let mut total_shared: u64 = 0;
    let mut i: usize = 0;
    assert(branches@.take(0) =~= Seq::empty());
    while i < branches.len()
        invariant
            i <= branches.len(),
            total_unique == unique_total(branches@.take(i as int)),
            total_shared == shared_total(branches@.take(i as int)),
        decreases branches.len() - i,
    {
        proof {
            assert(branches@.take(i + 1).drop_last() =~= branches@.take(i as int));
            lemma_totals_grow(branches@, i + 1);
        }
        total_unique = match total_unique.checked_add(branches[i].unique_size) {
            Some(sum) => sum,
            None => {
                return Err(Error::SizeOverflow);
            },
        };
        total_shared = match total_shared.checked_add(branches[i].shared_size) {
            Some(sum) => sum,
            None => {
                return Err(Error::SizeOverflow);
            },
        };
        i = i + 1;
    }
    assert(branches@.take(i as int) =~= branches@);
    Ok(
        Summary {
            total_branches: branches.len(),
            total_unique_size: total_unique,
            total_unique_size_mb: format_size_mb(total_unique),
            total_shared_size: total_shared,
            total_shared_size_mb: format_size_mb(total_shared),
        },
    )
}

} // verus!
