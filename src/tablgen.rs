//! The generated test table: a header and one row per name of a name
//! list, each holding the row number and a variant drawn at random.
use vstd::prelude::*;
use crate::text::{decimal, push_decimal};
use rand::Rng;

verus! {

/// The name of the generated test table.
pub const TEST_TABLE: &'static str = "testing_table";

/// Variants are drawn from `1..=VARIANTS`.
pub const VARIANTS: u32 = 12;

/// Relies on rand's `Rng::gen_range` over an inclusive range, which draws
/// a value inside it and panics only on an empty range.
#[verifier::external_body]
fn draw_between(lo: u32, hi: u32) -> (r: u32)
    requires
        lo <= hi,
    ensures
        lo <= r <= hi,
{
    rand::thread_rng().gen_range(lo..=hi)
}

pub open spec fn newlines(s: Seq<char>) -> nat
    decreases s.len(),
{
    if s.len() == 0 {
        0
    } else {
        newlines(s.drop_last()) + if s.last() == '\n' { 1nat } else { 0nat }
    }
}

/// The number of test rows for a name list: one fewer than its lines,
/// counting the piece after the last newline and leaving out the first
/// line.
pub open spec fn test_rows_for(names: Seq<char>) -> nat {
    if newlines(names) == 0 {
        0
    } else {
        (newlines(names) - 1) as nat
    }
}

pub fn test_row_count(names: &str) -> (r: usize)
    ensures
        r == test_rows_for(names@),
{
    let n = names.unicode_len();
    let mut count: usize = 0;
    let mut i: usize = 0;
    while i < n
        invariant
            n == names@.len(),
            i <= n,
            count == newlines(names@.subrange(0, i as int)),
            count <= i,
        decreases n - i,
    {
        assert(names@.subrange(0, i + 1).drop_last() =~= names@.subrange(0, i as int));
        if names.get_char(i) == '\n' {
            count = count + 1;
        }
        i = i + 1;
    }
    assert(names@.subrange(0, n as int) =~= names@);
    if count == 0 {
        0
    } else {
        count - 1
    }
}

pub open spec fn header() -> Seq<char> {
    "stdnt_id,var_id\n"@
}

/// The rows for `draws`: row `k`, counting from one, is `k,<draw>`.
pub open spec fn test_rows(draws: Seq<u32>) -> Seq<char>
    decreases draws.len(),
{
    if draws.len() == 0 {
        Seq::empty()
    } else {
        test_rows(draws.drop_last()) + decimal(draws.len()) + seq![','] + decimal(
            draws.last() as nat,
        ) + seq!['\n']
    }
}

/// The text of the test table for the drawn variants.
pub fn test_table_text(draws: &Vec<u32>) -> (r: String)
    ensures
        r@ == header() + test_rows(draws@),
{
    let mut r = String::from_str("stdnt_id,var_id\n");
    let mut i: usize = 0;
    while i < draws.len()
        invariant
            i <= draws@.len(),
            r@ == header() + test_rows(draws@.subrange(0, i as int)),
        decreases draws@.len() - i,
    {
        let ghost p = draws@.subrange(0, i + 1);
        let ghost before = r@;
        assert(p.drop_last() =~= draws@.subrange(0, i as int));
        push_decimal(&mut r, i + 1);
        r.append(",");
        push_decimal(&mut r, draws[i] as usize);
        r.append("\n");
        proof {
            reveal_strlit(",");
            reveal_strlit("\n");
        }
        assert(r@ =~= header() + test_rows(p));
        i = i + 1;
    }
    assert(draws@.subrange(0, i as int) =~= draws@);
    r
}

/// The test table for a name list, with one variant drawn per row.
pub fn gen_test_table(names: &str) -> (r: String)
    ensures
        exists|draws: Seq<u32>|
            draws.len() == test_rows_for(names@) && (forall|k: int|
                0 <= k < draws.len() ==> 1 <= #[trigger] draws[k] <= VARIANTS) && r@ == header()
                + test_rows(draws),
{
    let rows = test_row_count(names);
    let mut draws: Vec<u32> = Vec::new();
    let mut i: usize = 0;
    while i < rows
        invariant
            i <= rows,
            draws@.len() == i,
            forall|k: int| 0 <= k < draws@.len() ==> 1 <= #[trigger] draws@[k] <= VARIANTS,
        decreases rows - i,
    {
        draws.push(draw_between(1, VARIANTS));
        i = i + 1;
    }
    test_table_text(&draws)
}

} // verus!
