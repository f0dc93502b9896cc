use tablmgr::tablmgr::{add, del, edit, normalize, print, uniq_check, Table, TableError};

fn rows_of(t: &Table) -> Vec<String> {
    t.rows.clone()
}

#[test]
fn students_scenario() {
    let mut t = Table::new();
    assert_eq!(t.len(), 0);
    assert_eq!(add(&mut t, "1 42"), 1);
    assert_eq!(rows_of(&t), vec!["1,42".to_string()]);
    assert_eq!(t.to_text(), "1,42\n");
    assert_eq!(add(&mut t, "1 42"), 0);
    assert_eq!(t.len(), 1);
    assert_eq!(print(&t, 0), Ok("1 42".to_string()));
    assert_eq!(del(&mut t, 0), Ok("1,42\n".to_string()));
    assert_eq!(t.len(), 0);
    assert_eq!(print(&t, 0), Err(TableError::OutOfRange));
}

#[test]
fn duplicate_add_and_edit_change_nothing() {
    let mut t = Table::from_text("a,b\nc,d\n");
    assert_eq!(add(&mut t, "  c d "), 0);
    assert_eq!(edit(&mut t, 0, "c d"), Ok(0));
    assert_eq!(rows_of(&t), vec!["a,b".to_string(), "c,d".to_string()]);
    assert_eq!(edit(&mut t, 0, " e f"), Ok(1));
    assert_eq!(rows_of(&t), vec!["e,f".to_string(), "c,d".to_string()]);
}

#[test]
fn edit_is_positional() {
    let mut t = Table::from_text("x\ny\nx\n");
    assert_eq!(edit(&mut t, 2, "z"), Ok(1));
    assert_eq!(t.to_text(), "x\ny\nz\n");
}

#[test]
fn out_of_range_ids_fail_without_change() {
    let mut t = Table::from_text("r0\nr1\n");
    assert_eq!(print(&t, 2), Err(TableError::OutOfRange));
    assert_eq!(edit(&mut t, 2, "new"), Err(TableError::OutOfRange));
    assert_eq!(del(&mut t, 7), Err(TableError::OutOfRange));
    assert_eq!(t.to_text(), "r0\nr1\n");
    assert_eq!(print(&t, 1), Ok("r1".to_string()));
}

#[test]
fn delete_returns_row_and_keeps_order() {
    let mut t = Table::from_text("a\nb\nc\nd");
    assert_eq!(del(&mut t, 1), Ok("b\n".to_string()));
    assert_eq!(t.to_text(), "a\nc\nd\n");
    assert_eq!(del(&mut t, 2), Ok("d\n".to_string()));
    assert_eq!(t.to_text(), "a\nc\n");
}

#[test]
fn added_record_prints_back_trimmed() {
    let mut t = Table::from_text("id,name\n");
    assert_eq!(add(&mut t, " 7 Ann Lee\t"), 1);
    assert_eq!(print(&t, 1), Ok("7 Ann Lee".to_string()));
}

#[test]
fn normalize_trims_unicode_space_and_swaps_separators() {
    assert_eq!(normalize("\u{3000} a b \n"), "a,b");
    assert_eq!(normalize("   "), "");
    assert_eq!(normalize("x"), "x");
}

#[test]
fn uniq_check_compares_whole_rows() {
    let rows = vec!["1,2".to_string(), "3".to_string()];
    assert!(!uniq_check(&rows, "3"));
    assert!(uniq_check(&rows, "1"));
    assert!(uniq_check(&rows, "1,2,"));
}

#[test]
fn text_form_reads_lines() {
    let t = Table::from_text("a\n\nb");
    assert_eq!(rows_of(&t), vec!["a".to_string(), "".to_string(), "b".to_string()]);
    assert_eq!(t.to_text(), "a\n\nb\n");
    assert_eq!(Table::from_text("").len(), 0);
    assert_eq!(rows_of(&Table::from_text("\n")), vec!["".to_string()]);
    let back = Table::from_text(&t.to_text());
    assert_eq!(rows_of(&back), rows_of(&t));
}
