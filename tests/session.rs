use tablmgr::backup::{backup_plan, backup_plan_now, table_path, TABLES_DIR};
use tablmgr::menu::{
    backup_choice, backup_outcome, delete_choice, delete_outcome, dispatch, get_tables_list,
    key_for_command, main_choice, main_menu_text, new_table_name, shown_menu_lines,
    tables_listing, BackupChoice, Command, DeleteChoice, Keys, Menus,
};
use tablmgr::tablgen::{gen_test_table, test_row_count, test_table_text};
use tablmgr::text::{parse_index, remove_char, same_text, trim_text};

fn names(v: &[&str]) -> Vec<String> {
    v.iter().map(|s| s.to_string()).collect()
}

#[test]
fn commands_select_keys() {
    assert_eq!(key_for_command("1"), Keys::CreateTablKey);
    assert_eq!(key_for_command("5"), Keys::BackupTablKey);
    assert_eq!(key_for_command("9"), Keys::PrintKey);
    assert_eq!(key_for_command("10"), Keys::ExitKey);
    assert_eq!(key_for_command("7"), Keys::UnknownKey);
    assert_eq!(main_choice("Q\n"), Keys::ExitKey);
    assert_eq!(main_choice("EXIT\n"), Keys::ExitKey);
    assert_eq!(main_choice("8\n"), Keys::GenTestTablKey);
    assert_eq!(main_choice(" 1\n"), Keys::UnknownKey);
}

#[test]
fn new_table_names_are_lowercase_with_underscores() {
    assert_eq!(new_table_name("My Table\n"), "my_table");
}

#[test]
fn delete_screen_choices() {
    let t = names(&["a.txt", "b.txt"]);
    assert!(matches!(delete_choice("C\n", &t), DeleteChoice::Cancel));
    match delete_choice("1\n", &t) {
        DeleteChoice::Remove(n) => assert_eq!(n, "b.txt"),
        _ => panic!("expected a removal"),
    }
    assert!(matches!(delete_choice("5\n", &t), DeleteChoice::Retry));
    assert!(matches!(delete_choice("x\n", &t), DeleteChoice::Retry));
    assert_eq!(delete_outcome(true), Keys::MainMenuKey);
    assert_eq!(delete_outcome(false), Keys::DeleteTablKey);
}

#[test]
fn backup_screen_choices() {
    assert_eq!(backup_choice("YES\n"), BackupChoice::Run);
    assert_eq!(backup_choice("y"), BackupChoice::Run);
    assert_eq!(backup_choice("No\n"), BackupChoice::Decline);
    assert_eq!(backup_choice("maybe"), BackupChoice::Again);
    assert_eq!(backup_outcome(BackupChoice::Again), Keys::BackupTablKey);
    assert_eq!(backup_outcome(BackupChoice::Run), Keys::MainMenuKey);
}

#[test]
fn table_list_numbers_names() {
    assert_eq!(tables_listing("H", &names(&["a.txt", "b.txt"])), "H\n0. a.txt\n1. b.txt\n");
    let many: Vec<String> = (0..11).map(|i| format!("t{}", i)).collect();
    assert!(tables_listing("", &many).ends_with("10. t10\n"));
    let r = get_tables_list(names(&["a.txt"]));
    assert!(r.contains("TABLES LIST:"));
    assert!(r.ends_with("\n0. a.txt\n"));
    assert!(get_tables_list(Vec::new()).contains("THERE ARE NO TABLES"));
}

#[test]
fn main_menu_hides_viewer_until_generated() {
    let text = main_menu_text();
    assert_eq!(text.len(), 10);
    let hidden = shown_menu_lines(&text, false);
    assert_eq!(hidden.len(), 9);
    assert!(!hidden.iter().any(|l| l == "9. Print testing table."));
    assert_eq!(shown_menu_lines(&text, true), text);
}

#[test]
fn dispatch_follows_keys() {
    let t = names(&["a.txt"]);
    let turn = dispatch(Keys::MainMenuKey, Menus::Create, t.clone(), true, String::new());
    assert!(matches!(turn.menu, Menus::Main { is_test_generated: true, .. }));
    assert_eq!(turn.command, Command::Prompt);
    let turn = dispatch(Keys::BackupTablKey, Menus::Create, t.clone(), false, String::new());
    match turn.menu {
        Menus::Backup { tables_list, backup_path } => {
            assert_eq!(tables_list, t);
            assert_eq!(backup_path, "../backups/");
        }
        _ => panic!("expected the backup screen"),
    }
    let turn = dispatch(Keys::PrintKey, Menus::Create, t.clone(), false, "kept".to_string());
    assert_eq!(turn.command, Command::Prompt);
    assert_eq!(turn.log, "kept");
    let turn = dispatch(Keys::PrintKey, Menus::Create, t.clone(), true, String::new());
    assert_eq!(turn.command, Command::OpenViewer);
    let turn = dispatch(Keys::UnknownKey, Menus::Create, t.clone(), true, String::new());
    assert!(turn.log.contains("TRY ONE MORE TIME!"));
    assert!(matches!(turn.menu, Menus::Create));
    let turn = dispatch(Keys::GenTestTablKey, Menus::Create, t.clone(), false, String::new());
    assert_eq!(turn.command, Command::GenerateTestTable);
    assert!(turn.log.contains("TESTING TABLE GENERATED!"));
    let turn = dispatch(Keys::ExitKey, Menus::Create, t.clone(), false, String::new());
    assert_eq!(turn.command, Command::Exit);
    let turn = dispatch(Keys::TablListKey, Menus::Create, t, false, String::new());
    assert!(turn.log.ends_with("0. a.txt\n"));
}

#[test]
fn backup_copies_every_table() {
    let t = names(&["a.txt", "b.txt"]);
    let plan = backup_plan(&t, TABLES_DIR, "../backups/", "01-02-2024-10:30");
    assert_eq!(
        plan,
        vec![
            ("../generated_tables/a.txt".to_string(), "../backups/01-02-2024-10:30-a.txt".to_string()),
            ("../generated_tables/b.txt".to_string(), "../backups/01-02-2024-10:30-b.txt".to_string()),
        ]
    );
    let now = backup_plan_now(&t, TABLES_DIR, "../backups/");
    assert_eq!(now.len(), 2);
    let stamp = now[0].1.strip_prefix("../backups/").unwrap().strip_suffix("-a.txt").unwrap();
    assert_eq!(stamp.len(), 16);
    assert_eq!(&stamp[13..14], ":");
    assert_eq!(now[1].1, format!("../backups/{}-b.txt", stamp));
    assert!(backup_plan_now(&Vec::new(), TABLES_DIR, "../backups/").is_empty());
}

#[test]
fn table_paths() {
    assert_eq!(table_path("generated_tables", "students"), "../generated_tables/students.txt");
}

#[test]
fn test_table_rows_follow_names() {
    assert_eq!(test_row_count("header\nann\nbob\n"), 2);
    assert_eq!(test_row_count("a\r\nb\r\nc"), 1);
    assert_eq!(test_row_count(""), 0);
    assert_eq!(test_table_text(&vec![3, 12]), "stdnt_id,var_id\n1,3\n2,12\n");
    let text = gen_test_table("h\nx\ny\n");
    let lines: Vec<&str> = text.lines().collect();
    assert_eq!(lines.len(), 3);
    assert_eq!(lines[0], "stdnt_id,var_id");
    for (k, line) in lines[1..].iter().enumerate() {
        let (n, v) = line.split_once(',').unwrap();
        assert_eq!(n, (k + 1).to_string());
        let v: u32 = v.parse().unwrap();
        assert!((1..=12).contains(&v));
    }
}

#[test]
fn text_helpers() {
    assert_eq!(parse_index("+12"), Some(12));
    assert_eq!(parse_index("007"), Some(7));
    assert_eq!(parse_index("12a"), None);
    assert_eq!(parse_index(""), None);
    assert_eq!(parse_index("+"), None);
    assert_eq!(parse_index("-1"), None);
    assert_eq!(parse_index("18446744073709551616"), None);
    assert_eq!(parse_index("18446744073709551615"), Some(usize::MAX));
    assert_eq!(trim_text("\t é x \u{2029}"), "é x");
    assert_eq!(remove_char("a\nb\n", '\n'), "ab");
    assert!(same_text("ab", "ab"));
    assert!(!same_text("ab", "abc"));
}
