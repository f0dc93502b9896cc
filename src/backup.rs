//! Where table files live, and which copies a backup makes.
use vstd::prelude::*;

verus! {

/// The directory of the table files.
pub const TABLES_DIR: &'static str = "../generated_tables/";

/// The file of table `table` in folder `folder`: `../<folder>/<table>.txt`.
pub fn table_path(folder: &str, table: &str) -> (r: String)
    ensures
        r@ == "../"@ + folder@ + "/"@ + table@ + ".txt"@,
{
    let mut r = String::from_str("../");
    r.append(folder);
    r.append("/");
    r.append(table);
    r.append(".txt");
    r
}

/// `plan` copies each file named in `tables`, in order, from `source_dir`
/// to `backup_dir`, under its name prefixed by `stamp` and a dash.
pub open spec fn is_backup_plan(
    plan: Seq<(String, String)>,
    tables: Seq<String>,
    source_dir: Seq<char>,
    backup_dir: Seq<char>,
    stamp: Seq<char>,
) -> bool {
    &&& plan.len() == tables.len()
    &&& forall|i: int|
        0 <= i < plan.len() ==> (#[trigger] plan[i]).0@ == source_dir + tables[i]@ && plan[i].1@
            == backup_dir + stamp + seq!['-'] + tables[i]@
}

/// The copies a backup taken at `stamp` makes: a source and a destination
/// path for each table file.
pub fn backup_plan(tables: &Vec<String>, source_dir: &str, backup_dir: &str, stamp: &str) -> (r: Vec<(String, String)>)
    ensures
        is_backup_plan(r@, tables@, source_dir@, backup_dir@, stamp@),
{
    let mut r: Vec<(String, String)> = Vec::new();
    let mut i: usize = 0;
    while i < tables.len()
        invariant
            i <= tables@.len(),
            is_backup_plan(r@, tables@.subrange(0, i as int), source_dir@, backup_dir@, stamp@),
        decreases tables@.len() - i,
    {
        let mut from = String::from_str(source_dir);
        from.append(tables[i].as_str());
        let mut to = String::from_str(backup_dir);
        to.append(stamp);
        to.append("-");
        to.append(tables[i].as_str());
        proof {
            reveal_strlit("-");
        }
        r.push((from, to));
        i = i + 1;
        assert forall|k: int| 0 <= k < r@.len() implies (#[trigger] r@[k]).0@ == source_dir@
            + tables@.subrange(0, i as int)[k]@ && r@[k].1@ == backup_dir@ + stamp@ + seq!['-']
            + tables@.subrange(0, i as int)[k]@ by {
            if k < i - 1 {
                assert(tables@.subrange(0, i - 1)[k] == tables@.subrange(0, i as int)[k]);
            }
        }
    }
    assert(tables@.subrange(0, i as int) =~= tables@);
    r
}

/// Relies on chrono's `Utc::now` and its `%d-%m-%Y-%H:%M` format: the
/// current UTC time as day-month-year-hour:minute.
#[verifier::external_body]
fn stamp_now() -> (r: String) {
    chrono::Utc::now().format("%d-%m-%Y-%H:%M").to_string()
}

/// The copies a backup taken now makes, under one stamp of the current
/// time for all of them.
pub fn backup_plan_now(tables: &Vec<String>, source_dir: &str, backup_dir: &str) -> (r: Vec<(String, String)>)
    ensures
        exists|stamp: Seq<char>| is_backup_plan(r@, tables@, source_dir@, backup_dir@, stamp),
{
    let stamp = stamp_now();
    backup_plan(tables, source_dir, backup_dir, stamp.as_str())
}

} // verus!
