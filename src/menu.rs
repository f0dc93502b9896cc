//! The interactive session as a state machine: which screen a key leads
//! to, what the session does there, and how a line of input is read at
//! each screen.
use vstd::prelude::*;
use crate::style::{alert_banner, holds_text, success_banner};
use crate::text::{decimal, parse_index, parsed_index, push_decimal, remove_char, same_text, swapped, replace_char, without};

verus! {

/// What the last line of input asked for.
#[derive(Clone, Copy, Debug, PartialEq, Eq, Structural)]
pub enum Keys {
    MainMenuKey,
    CreateTablKey,
    DeleteTablKey,
    EditTablKey,
    TablListKey,
    BackupTablKey,
    GenTestTablKey,
    PrintKey,
    ExitKey,
    UnknownKey,
}

/// The screen shown before the next line of input is read.
#[derive(Clone, Debug)]
pub enum Menus {
    Main { is_test_generated: bool, text: Vec<String> },
    Create,
    Delete { tables_list: Vec<String> },
    Edit { tables_list: Vec<String> },
    Backup { tables_list: Vec<String>, backup_path: String },
    Unknown,
}

/// What the session does in a turn besides showing its screen.
#[derive(Clone, Copy, Debug, PartialEq, Eq, Structural)]
pub enum Command {
    /// Show the screen and read a line.
    Prompt,
    /// Generate the test table, then go to the main menu without reading.
    GenerateTestTable,
    /// Open the viewer of the test table, then show the screen and read.
    OpenViewer,
    /// Remove the scratch tables and end the session.
    Exit,
}

/// One turn of the session.
pub struct Turn {
    pub menu: Menus,
    pub command: Command,
    pub log: String,
}

/// What a line typed at the delete screen asks for.
#[derive(Clone, Debug)]
pub enum DeleteChoice {
    Cancel,
    /// The line names no listed table: ask again.
    Retry,
    Remove(String),
}

/// What a line typed at the backup screen asks for.
#[derive(Clone, Copy, Debug, PartialEq, Eq, Structural)]
pub enum BackupChoice {
    Run,
    Decline,
    Again,
}

pub const BACKUP_DIR: &'static str = "../backups/";

/// The result of `str::to_lowercase`.
pub uninterp spec fn lower_of(s: Seq<char>) -> Seq<char>;

/// Relies on `str::to_lowercase`, whose result depends on the characters
/// alone.
#[verifier::external_body]
fn lowercase(s: &str) -> (r: String)
    ensures
        r@ == lower_of(s@),
{
    s.to_lowercase()
}

/// The key that a command of the main menu selects.
pub open spec fn command_key(s: Seq<char>) -> Keys {
    if s == "1"@ {
        Keys::CreateTablKey
    } else if s == "2"@ {
        Keys::DeleteTablKey
    } else if s == "3"@ {
        Keys::EditTablKey
    } else if s == "4"@ {
        Keys::TablListKey
    } else if s == "5"@ {
        Keys::BackupTablKey
    } else if s == "8"@ {
        Keys::GenTestTablKey
    } else if s == "9"@ {
        Keys::PrintKey
    } else if s == "10"@ || s == "q"@ || s == "exit"@ {
        Keys::ExitKey
    } else {
        Keys::UnknownKey
    }
}

/// The key that a command of the main menu, already lower case and
/// without newlines, selects.
pub fn key_for_command(cmd: &str) -> (r: Keys)
    ensures
        r == command_key(cmd@),
{
    if same_text(cmd, "1") {
        Keys::CreateTablKey
    } else if same_text(cmd, "2") {
        Keys::DeleteTablKey
    } else if same_text(cmd, "3") {
        Keys::EditTablKey
    } else if same_text(cmd, "4") {
        Keys::TablListKey
    } else if same_text(cmd, "5") {
        Keys::BackupTablKey
    } else if same_text(cmd, "8") {
        Keys::GenTestTablKey
    } else if same_text(cmd, "9") {
        Keys::PrintKey
    } else if same_text(cmd, "10") || same_text(cmd, "q") || same_text(cmd, "exit") {
        Keys::ExitKey
    } else {
        Keys::UnknownKey
    }
}

/// The key selected by a line typed at the main menu: newlines removed,
/// then lower-cased.
pub fn main_choice(input: &str) -> (r: Keys)
    ensures
        r == command_key(lower_of(without(input@, '\n'))),
{
    let line = remove_char(input, '\n');
    let cmd = lowercase(line.as_str());
    key_for_command(cmd.as_str())
}

/// The name of a new table from the line typed at the create screen:
/// newlines removed, lower-cased, spaces turned into underscores.
pub fn new_table_name(input: &str) -> (r: String)
    ensures
        r@ == swapped(lower_of(without(input@, '\n')), ' ', '_'),
{
    let line = remove_char(input, '\n');
    let lower = lowercase(line.as_str());
    proof {
        reveal_strlit("_");
    }
    replace_char(lower.as_str(), ' ', "_")
}

/// What a line at the delete screen, already lower case and without
/// newlines, asks for: `c` cancels, the number of a listed table removes
/// it, anything else asks again.
pub open spec fn delete_choice_of(s: Seq<char>, tables: Seq<String>) -> DeleteChoice {
    if s == "c"@ {
        DeleteChoice::Cancel
    } else {
        match parsed_index(s) {
            Some(i) => if i < tables.len() {
                DeleteChoice::Remove(tables[i as int])
            } else {
                DeleteChoice::Retry
            },
            None => DeleteChoice::Retry,
        }
    }
}

pub fn choose_deletion(option: &str, tables: &Vec<String>) -> (r: DeleteChoice)
    ensures
        match (r, delete_choice_of(option@, tables@)) {
            (DeleteChoice::Remove(a), DeleteChoice::Remove(b)) => a@ == b@,
            (DeleteChoice::Cancel, DeleteChoice::Cancel) => true,
            (DeleteChoice::Retry, DeleteChoice::Retry) => true,
            _ => false,
        },
{
    if same_text(option, "c") {
        return DeleteChoice::Cancel;
    }
    match parse_index(option) {
        Some(i) => if i < tables.len() {
            DeleteChoice::Remove(tables[i].clone())
        } else {
            DeleteChoice::Retry
        },
        None => DeleteChoice::Retry,
    }
}

/// What a line typed at the delete screen asks for: lower-cased, then
/// newlines removed.
pub fn delete_choice(input: &str, tables: &Vec<String>) -> (r: DeleteChoice)
    ensures
        match (r, delete_choice_of(without(lower_of(input@), '\n'), tables@)) {
            (DeleteChoice::Remove(a), DeleteChoice::Remove(b)) => a@ == b@,
            (DeleteChoice::Cancel, DeleteChoice::Cancel) => true,
            (DeleteChoice::Retry, DeleteChoice::Retry) => true,
            _ => false,
        },
{
    let lower = lowercase(input);
    let option = remove_char(lower.as_str(), '\n');
    choose_deletion(option.as_str(), tables)
}

/// The key after an attempt to remove a table: the main menu when it was
/// removed, the delete screen again when not.
pub fn delete_outcome(removed: bool) -> (r: Keys)
    ensures
        r == (if removed { Keys::MainMenuKey } else { Keys::DeleteTablKey }),
{
    if removed {
        Keys::MainMenuKey
    } else {
        Keys::DeleteTablKey
    }
}

/// What a line at the backup screen, already lower case and without
/// newlines, asks for.
pub open spec fn backup_choice_of(s: Seq<char>) -> BackupChoice {
    if s == "y"@ || s == "yes"@ {
        BackupChoice::Run
    } else if s == "n"@ || s == "no"@ {
        BackupChoice::Decline
    } else {
        BackupChoice::Again
    }
}

pub fn choose_backup(option: &str) -> (r: BackupChoice)
    ensures
        r == backup_choice_of(option@),
{
    if same_text(option, "y") || same_text(option, "yes") {
        BackupChoice::Run
    } else if same_text(option, "n") || same_text(option, "no") {
        BackupChoice::Decline
    } else {
        BackupChoice::Again
    }
}

/// What a line typed at the backup screen asks for: newlines removed, then
/// lower-cased.
pub fn backup_choice(input: &str) -> (r: BackupChoice)
    ensures
        r == backup_choice_of(lower_of(without(input@, '\n'))),
{
    let line = remove_char(input, '\n');
    let option = lowercase(line.as_str());
    choose_backup(option.as_str())
}

/// The key after the backup screen: the screen again for an unclear
/// answer, the main menu otherwise.
pub fn backup_outcome(choice: BackupChoice) -> (r: Keys)
    ensures
        r == (if choice == BackupChoice::Again { Keys::BackupTablKey } else { Keys::MainMenuKey }),
{
    match choice {
        BackupChoice::Again => Keys::BackupTablKey,
        _ => Keys::MainMenuKey,
    }
}

/// The numbered list of table names: `<n>. <name>` on a line each,
/// counting from zero.
pub open spec fn listing(names: Seq<Seq<char>>) -> Seq<char>
    decreases names.len(),
{
    if names.len() == 0 {
        Seq::empty()
    } else {
        listing(names.drop_last()) + decimal((names.len() - 1) as nat) + seq!['.', ' ']
            + names.last() + seq!['\n']
    }
}

pub open spec fn names_of(tables: Seq<String>) -> Seq<Seq<char>> {
    tables.map_values(|t: String| t@)
}

/// What the table list reads for `names`: a warning when there are none,
/// else a heading line followed by the numbered list.
pub open spec fn is_tables_report(r: Seq<char>, names: Seq<Seq<char>>) -> bool {
    if names.len() == 0 {
        holds_text(r, "THERE ARE NO TABLES"@)
    } else {
        exists|h: Seq<char>|
            holds_text(h, "TABLES LIST:"@) && r == #[trigger] (h + seq!['\n'] + listing(names))
    }
}

/// The heading, a newline, and the numbered list of `tables`.
pub fn tables_listing(heading: &str, tables: &Vec<String>) -> (r: String)
    ensures
        r@ == heading@ + seq!['\n'] + listing(names_of(tables@)),
{
    let mut r = String::from_str(heading);
    r.append("\n");
    proof {
        reveal_strlit("\n");
        reveal_strlit(". ");
    }
    let ghost head = r@;
    let mut i: usize = 0;
    while i < tables.len()
        invariant
            i <= tables@.len(),
            head == heading@ + seq!['\n'],
            r@ == head + listing(names_of(tables@).subrange(0, i as int)),
        decreases tables@.len() - i,
    {
        let ghost p = names_of(tables@).subrange(0, i + 1);
        let ghost before = r@;
        assert(p.drop_last() =~= names_of(tables@).subrange(0, i as int));
        assert(p.last() == tables@[i as int]@);
        push_decimal(&mut r, i);
        r.append(". ");
        r.append(tables[i].as_str());
        r.append("\n");
        proof {
            reveal_strlit(". ");
            reveal_strlit("\n");
        }
        assert(". "@ =~= seq!['.', ' ']);
        assert(r@ =~= before + decimal(i as nat) + seq!['.', ' '] + p.last() + seq!['\n']);
        assert(listing(p) == listing(p.drop_last()) + decimal(i as nat) + seq!['.', ' '] + p.last()
            + seq!['\n']);
        assert(r@ =~= head + listing(p));
        i = i + 1;
    }
    assert(names_of(tables@).subrange(0, i as int) =~= names_of(tables@));
    r
}

/// The table list shown to the user.
pub fn get_tables_list(tables: Vec<String>) -> (r: String)
    ensures
        is_tables_report(r@, names_of(tables@)),
{
    if tables.len() == 0 {
        proof {
            reveal_strlit("THERE ARE NO TABLES");
        }
        alert_banner("THERE ARE NO TABLES")
    } else {
        proof {
            reveal_strlit("TABLES LIST:");
        }
        let heading = success_banner("TABLES LIST:");
        let r = tables_listing(heading.as_str(), &tables);
        assert(holds_text(heading@, "TABLES LIST:"@) && r@ == heading@ + seq!['\n'] + listing(
            names_of(tables@),
        ));
        r
    }
}

/// The lines of the main menu.
pub open spec fn main_menu_lines() -> Seq<Seq<char>> {
    seq![
        "1. Create table."@,
        "2. Delete table."@,
        "3. Edit table."@,
        "4. Table list."@,
        "5. Backup menu"@,
        "-------------------------"@,
        "8. Generate testing table."@,
        "9. Print testing table."@,
        "-------------------------"@,
        "10. Exit (or q)."@,
    ]
}

pub fn main_menu_text() -> (r: Vec<String>)
    ensures
        names_of(r@) == main_menu_lines(),
{
    let r = vec![
        String::from_str("1. Create table."),
        String::from_str("2. Delete table."),
        String::from_str("3. Edit table."),
        String::from_str("4. Table list."),
        String::from_str("5. Backup menu"),
        String::from_str("-------------------------"),
        String::from_str("8. Generate testing table."),
        String::from_str("9. Print testing table."),
        String::from_str("-------------------------"),
        String::from_str("10. Exit (or q)."),
    ];
    assert(names_of(r@) =~= main_menu_lines());
    r
}

/// The entry of the main menu that opens the viewer: its text before the
/// first `.` is `9`.
pub open spec fn is_viewer_entry(line: Seq<char>) -> bool {
    line.len() >= 1 && line[0] == '9' && (line.len() == 1 || line[1] == '.')
}

/// The lines of the main menu that are shown: the viewer's entry only when
/// the test table exists.
pub open spec fn visible_lines(lines: Seq<Seq<char>>, generated: bool) -> Seq<Seq<char>>
    decreases lines.len(),
{
    if lines.len() == 0 {
        lines
    } else if !generated && is_viewer_entry(lines.last()) {
        visible_lines(lines.drop_last(), generated)
    } else {
        visible_lines(lines.drop_last(), generated).push(lines.last())
    }
}

pub fn viewer_entry(line: &str) -> (r: bool)
    ensures
        r == is_viewer_entry(line@),
{
    let n = line.unicode_len();
    n >= 1 && line.get_char(0) == '9' && (n == 1 || line.get_char(1) == '.')
}

pub fn shown_menu_lines(text: &Vec<String>, generated: bool) -> (r: Vec<String>)
    ensures
        names_of(r@) == visible_lines(names_of(text@), generated),
{
    let mut r: Vec<String> = Vec::new();
    let mut i: usize = 0;
    while i < text.len()
        invariant
            i <= text@.len(),
            names_of(r@) == visible_lines(names_of(text@).subrange(0, i as int), generated),
        decreases text@.len() - i,
    {
        let ghost p = names_of(text@).subrange(0, i + 1);
        assert(p.drop_last() =~= names_of(text@).subrange(0, i as int));
        if generated || !viewer_entry(text[i].as_str()) {
            let ghost before = r@;
            r.push(text[i].clone());
            assert(names_of(r@) =~= names_of(before).push(text@[i as int]@));
        }
        i = i + 1;
    }
    assert(names_of(text@).subrange(0, i as int) =~= names_of(text@));
    r
}

/// The turn that follows `key`: the screen to show, what to do, and the
/// status line.
pub fn dispatch(key: Keys, current: Menus, tables: Vec<String>, generated: bool, log: String) -> (r: Turn)
    ensures
        key == Keys::MainMenuKey ==> (r.menu matches Menus::Main { is_test_generated, text }
            && is_test_generated == generated && names_of(text@) == main_menu_lines())
            && r.command == Command::Prompt && r.log == log,
        key == Keys::CreateTablKey ==> r.menu is Create && r.command == Command::Prompt
            && r.log == log,
        key == Keys::DeleteTablKey ==> (r.menu matches Menus::Delete { tables_list }
            && tables_list@ == tables@) && r.command == Command::Prompt && r.log == log,
        key == Keys::EditTablKey ==> (r.menu matches Menus::Edit { tables_list }
            && tables_list@ == tables@) && r.command == Command::Prompt && r.log == log,
        key == Keys::TablListKey ==> r.menu == current && r.command == Command::Prompt
            && is_tables_report(r.log@, names_of(tables@)),
        key == Keys::BackupTablKey ==> (r.menu matches Menus::Backup { tables_list, backup_path }
            && tables_list@ == tables@ && backup_path@ == BACKUP_DIR@)
            && r.command == Command::Prompt && r.log == log,
        key == Keys::GenTestTablKey ==> r.menu == current && r.command
            == Command::GenerateTestTable && holds_text(r.log@, "TESTING TABLE GENERATED!"@),
        key == Keys::PrintKey ==> r.menu == current && r.command == (if generated {
            Command::OpenViewer
        } else {
            Command::Prompt
        }) && r.log == log,
        key == Keys::ExitKey ==> r.menu == current && r.command == Command::Exit && r.log == log,
        key == Keys::UnknownKey ==> r.menu == current && r.command == Command::Prompt
            && holds_text(r.log@, "TRY ONE MORE TIME!"@),
{
    match key {
        Keys::MainMenuKey => Turn {
            menu: Menus::Main { is_test_generated: generated, text: main_menu_text() },
            command: Command::Prompt,
            log,
        },
        Keys::CreateTablKey => Turn { menu: Menus::Create, command: Command::Prompt, log },
        Keys::DeleteTablKey => Turn {
            menu: Menus::Delete { tables_list: tables },
            command: Command::Prompt,
            log,
        },
        Keys::EditTablKey => Turn {
            menu: Menus::Edit { tables_list: tables },
            command: Command::Prompt,
            log,
        },
        Keys::TablListKey => Turn {
            menu: current,
            command: Command::Prompt,
            log: get_tables_list(tables),
        },
        Keys::BackupTablKey => Turn {
            menu: Menus::Backup { tables_list: tables, backup_path: String::from_str(BACKUP_DIR) },
            command: Command::Prompt,
            log,
        },
        Keys::GenTestTablKey => {
            proof {
                reveal_strlit("TESTING TABLE GENERATED!");
            }
            Turn {
                menu: current,
                command: Command::GenerateTestTable,
                log: success_banner("TESTING TABLE GENERATED!"),
            }
        },
        Keys::PrintKey => Turn {
            menu: current,
            command: if generated {
                Command::OpenViewer
            } else {
                Command::Prompt
            },
            log,
        },
        Keys::ExitKey => Turn { menu: current, command: Command::Exit, log },
        Keys::UnknownKey => {
            proof {
                reveal_strlit("TRY ONE MORE TIME!");
            }
            Turn {
                menu: current,
                command: Command::Prompt,
                log: alert_banner("TRY ONE MORE TIME!"),
            }
        },
    }
}

impl Menus {
    /// The main menu, with the viewer's entry hidden.
    pub fn new() -> (m: Menus)
        ensures
            m matches Menus::Main { is_test_generated, text } && !is_test_generated
                && names_of(text@) == main_menu_lines(),
    {
        Menus::Main { is_test_generated: false, text: main_menu_text() }
    }
}

} // verus!
