use chord_launcher::config::{Config, EntryGroup};
use chord_launcher::keyboard::{has_char, KeyboardApp};
use chord_launcher::launch::{
    escape_single_quotes, is_terminal_mode, opener_command, plan_launch, terminal_command,
    LaunchKind,
};
use chord_launcher::matching::{input_rx, row_colors, Color};
use chord_launcher::token::{key_token, Key, Token};

fn s(x: &str) -> String {
    x.to_string()
}

fn texts(tokens: &[Token]) -> Vec<String> {
    tokens.iter().map(|t| t.to_text()).collect()
}

/// A configuration whose first group holds one entry with the given keys.
fn config_with_a3(keys: [Token; 3], name: &str, path: &str, mode: &str) -> Config {
    let mut c = Config::empty();
    let ks = texts(&keys);
    c.add_entry(0, &ks, s(name), s(path), s(mode));
    c
}

#[test]
fn key_tokens_map_each_key() {
    assert_eq!(key_token(Key::ArrowLeft), Some(Token::Left));
    assert_eq!(key_token(Key::ArrowRight), Some(Token::Right));
    assert_eq!(key_token(Key::ArrowUp), Some(Token::Up));
    assert_eq!(key_token(Key::ArrowDown), Some(Token::Down));
    assert_eq!(key_token(Key::Escape), Some(Token::Escape));
    assert_eq!(key_token(Key::Delete), Some(Token::Delete));
    assert_eq!(key_token(Key::Enter), Some(Token::Add));
    assert_eq!(key_token(Key::Tab), Some(Token::Exit));
    assert_eq!(key_token(Key::Other), None);
}

#[test]
fn token_texts() {
    assert_eq!(Token::Left.as_str(), "\u{21e6}");
    assert_eq!(Token::Right.as_str(), "\u{21e8}");
    assert_eq!(Token::Up.as_str(), "\u{21e7}");
    assert_eq!(Token::Down.as_str(), "\u{21e9}");
    assert_eq!(Token::Escape.as_str(), "Escape");
    assert_eq!(Token::Delete.as_str(), "Delete");
    assert_eq!(Token::Add.as_str(), "ADD");
    assert_eq!(Token::Exit.as_str(), "exit");
    assert!(Token::Up.is_text_of(&s("\u{21e7}")));
    assert!(!Token::Up.is_text_of(&s("\u{21e9}")));
}

#[test]
fn input_rx_match_turns_key_green() {
    let mut colors = vec![Color::White; 4];
    input_rx(0, &vec![Token::Left], &vec![s("\u{21e6}")], &mut colors, 0);
    assert_eq!(colors, vec![Color::White, Color::Green, Color::White, Color::White]);
}

#[test]
fn input_rx_mismatch_greys_everything() {
    let mut colors = vec![Color::White, Color::Green, Color::White, Color::White];
    input_rx(0, &vec![Token::Left, Token::Up], &vec![s("\u{21e9}")], &mut colors, 1);
    assert_eq!(colors, vec![Color::Gray; 4]);
}

#[test]
fn input_rx_match_after_broken_prefix_greys_prefix() {
    let mut colors = vec![Color::White, Color::Gray, Color::White, Color::Green];
    input_rx(0, &vec![Token::Left, Token::Up], &vec![s("\u{21e7}")], &mut colors, 1);
    assert_eq!(colors, vec![Color::Gray, Color::Gray, Color::Gray, Color::Green]);
}

#[test]
fn input_rx_untyped_column_inherits() {
    let mut colors = vec![Color::White, Color::Gray, Color::Green, Color::Green];
    input_rx(0, &vec![], &vec![], &mut colors, 0);
    assert_eq!(colors, vec![Color::White, Color::White, Color::Green, Color::Green]);
    let mut colors = vec![Color::Gray, Color::Green, Color::Green, Color::Green];
    input_rx(0, &vec![], &vec![], &mut colors, 0);
    assert_eq!(colors, vec![Color::Gray, Color::Gray, Color::Green, Color::Green]);
}

#[test]
fn row_colors_closed_forms() {
    let cols = vec![vec![s("\u{21e6}")], vec![s("\u{21e8}")], vec![s("\u{21e7}")]];
    assert_eq!(row_colors(&vec![], &cols, 0), vec![Color::White; 4]);
    assert_eq!(
        row_colors(&vec![Token::Left, Token::Right], &cols, 0),
        vec![Color::White, Color::Green, Color::Green, Color::White]
    );
    assert_eq!(
        row_colors(&vec![Token::Left, Token::Right, Token::Up], &cols, 0),
        vec![Color::White, Color::Green, Color::Green, Color::Green]
    );
    assert_eq!(row_colors(&vec![Token::Left, Token::Down], &cols, 0), vec![Color::Gray; 4]);
    assert_eq!(row_colors(&vec![Token::Down], &cols, 0), vec![Color::Gray; 4]);
}

#[test]
fn empty_config_shape() {
    let c = Config::empty();
    assert!(c.is_well_formed());
    assert_eq!(c.groups.len(), 5);
    for (g, grp) in c.groups.iter().enumerate() {
        assert_eq!(grp.keys.len(), 3 + g);
        assert!(grp.names.is_empty());
    }
    assert_eq!(c.total_rows(), 0);
    assert!(c.shell.is_empty());
}

#[test]
fn ill_formed_configs_are_detected() {
    let mut c = Config::empty();
    c.groups.pop();
    assert!(!c.is_well_formed());
    let mut c = Config::empty();
    c.groups[1].names.push(s("x"));
    assert!(!c.is_well_formed());
    let mut c = Config::empty();
    c.groups[2].keys.push(Vec::new());
    assert!(!c.is_well_formed());
}

#[test]
fn add_and_remove_entries() {
    let mut c = Config::empty();
    let ks = texts(&[Token::Up, Token::Up, Token::Down, Token::Left]);
    c.add_entry(1, &ks, s("editor"), s("vim"), s("t"));
    assert_eq!(c.total_rows(), 1);
    assert_eq!(c.groups[1].keys[3], vec![s("\u{21e6}")]);
    assert_eq!(c.groups[1].names, vec![s("editor")]);
    assert_eq!(c.rows_before(2), 1);
    assert_eq!(c.group_of_index(0), Some(1));
    assert_eq!(c.group_of_index(1), None);
    c.remove_entry(1, 0);
    assert_eq!(c.total_rows(), 0);
    assert!(c.groups[1].keys.iter().all(|col| col.is_empty()));
}

#[test]
fn remove_row_and_has_index() {
    let mut g = EntryGroup::new_empty(3);
    let ks = vec![s("a"), s("b"), s("c")];
    g.push_row(&ks, s("one"), s("p1"), s("x"));
    let ks2 = vec![s("d"), s("e"), s("f")];
    g.push_row(&ks2, s("two"), s("p2"), s("t"));
    assert!(g.has_index(1));
    assert!(!g.has_index(2));
    g.remove_row(0);
    assert_eq!(g.names, vec![s("two")]);
    assert_eq!(g.keys[2], vec![s("f")]);
}

#[test]
fn escape_single_quotes_replaces_each_quote() {
    assert_eq!(escape_single_quotes("echo 'hi' it's"), "echo '\\''hi'\\'' it'\\''s");
    assert_eq!(escape_single_quotes("ls -l"), "ls -l");
    assert_eq!(escape_single_quotes(""), "");
    assert_eq!(escape_single_quotes("'"), "'\\''");
}

#[test]
fn terminal_launch_command() {
    let cmd = terminal_command(&s("alacritty"), &s("echo 'x'"));
    assert_eq!(cmd.kind, LaunchKind::Terminal);
    assert_eq!(cmd.program, "alacritty");
    assert_eq!(cmd.args, vec![s("-e"), s("sh"), s("-c"), s("echo '\\''x'\\''")]);
    assert!(is_terminal_mode(&s("t")));
    assert!(!is_terminal_mode(&s("x")));
    assert!(!is_terminal_mode(&s("tt")));
}

#[test]
fn opener_launch_command() {
    let cmd = opener_command(s("/tmp/a.txt"));
    assert_eq!(cmd.kind, LaunchKind::Opener);
    assert_eq!(cmd.program, "xdg-open");
    assert_eq!(cmd.args, vec![s("/tmp/a.txt")]);
}

#[test]
fn plan_launch_picks_by_mode() {
    let cmd = plan_launch(&s("top"), &s("t"), &s("xterm"));
    assert_eq!(cmd.program, "xterm");
    assert_eq!(cmd.args, vec![s("-e"), s("sh"), s("-c"), s("top")]);
    let cmd = plan_launch(&s("/etc/hosts"), &s("x"), &s("xterm"));
    assert_eq!(cmd.program, "xdg-open");
    assert_eq!(cmd.args, vec![s("/etc/hosts")]);
    let cmd = plan_launch(&s("~user/file"), &s("x"), &s("xterm"));
    assert_eq!(cmd.args, vec![s("~user/file")]);
}

#[test]
fn plan_launch_expands_home_tilde() {
    let cmd = plan_launch(&s("~/notes.txt"), &s("x"), &s("xterm"));
    let arg = &cmd.args[0];
    assert!(arg.ends_with("/notes.txt"));
    if let Some(home) = dirs::home_dir() {
        assert_eq!(arg, &format!("{}/notes.txt", home.to_str().unwrap()));
        assert!(!arg.starts_with('~'));
    }
}

#[test]
fn launch_command_needs_path_mode_and_shell() {
    let c = config_with_a3([Token::Up, Token::Up, Token::Up], "top", "top", "t");
    assert!(c.launch_command(0, 0).is_none());
    let mut c = c;
    c.add_shell(s("foot"));
    let cmd = c.launch_command(0, 0).unwrap();
    assert_eq!(cmd.program, "foot");
    assert!(c.launch_command(0, 1).is_none());
}

#[test]
fn has_char_finds_quotes() {
    assert!(has_char(&s("a\"b"), '"'));
    assert!(!has_char(&s("abc"), '"'));
}

#[test]
fn new_app_state() {
    let c = config_with_a3([Token::Up, Token::Up, Token::Up], "top", "top", "t");
    let app = KeyboardApp::new(c);
    assert!(app.is_open());
    assert!(app.needs_shell());
    assert_eq!(app.max_input_len(), 1);
    assert!(!app.in_add_mode());
    assert!(!app.in_delete_mode());
    assert_eq!(app.delete_target(), None);
    assert!(app.input_log().is_empty());
    assert_eq!(app.log_timer(), None);
}

#[test]
fn keys_update_log_and_modes() {
    let mut app = KeyboardApp::new(Config::empty());
    app.handle_keys(&vec![Key::ArrowUp, Key::Other, Key::ArrowDown]);
    assert_eq!(app.input_log(), &vec![Token::Up, Token::Down]);
    app.handle_key(Key::Delete);
    assert!(app.input_log().is_empty());
    assert!(!app.in_delete_mode());
    app.handle_key(Key::Delete);
    assert!(app.in_delete_mode());
    assert!(app.input_log().is_empty());
    app.handle_key(Key::Tab);
    assert!(!app.in_delete_mode());
    assert!(app.input_log().is_empty());
    app.handle_key(Key::Escape);
    assert!(!app.is_open());
    assert_eq!(app.input_log(), &vec![Token::Escape]);
}

#[test]
fn add_flow_appends_entry_and_restarts() {
    let mut app = KeyboardApp::new(Config::empty());
    app.handle_key(Key::Enter);
    assert!(!app.process_add());
    assert!(app.in_add_mode());
    assert!(app.input_log().is_empty());
    app.set_name(s("files"));
    app.set_path(s("~/Documents"));
    app.choose_opener();
    app.handle_keys(&vec![Key::ArrowLeft, Key::ArrowLeft, Key::ArrowUp, Key::ArrowDown, Key::Enter]);
    assert!(app.process_add());
    assert!(!app.in_add_mode());
    let grp = &app.config().groups[1];
    assert_eq!(grp.names, vec![s("files")]);
    assert_eq!(grp.paths, vec![s("~/Documents")]);
    assert_eq!(grp.modes, vec![s("x")]);
    assert_eq!(grp.keys[2], vec![s("\u{21e7}")]);
    assert!(app.name().is_empty());
    assert!(app.path().is_empty());
    assert!(app.mode().is_empty());
    assert_eq!(app.input_log(), &vec![Token::Left, Token::Left, Token::Up, Token::Down]);
}

#[test]
fn add_with_missing_fields_warns() {
    let mut app = KeyboardApp::new(Config::empty());
    app.handle_key(Key::Enter);
    app.process_add();
    app.set_name(s("x"));
    app.handle_keys(&vec![Key::ArrowLeft, Key::ArrowLeft, Key::ArrowLeft, Key::Enter]);
    assert!(!app.process_add());
    assert!(app.warning());
    assert!(app.in_add_mode());
    assert_eq!(app.config().total_rows(), 0);
    assert_eq!(app.input_log().len(), 3);
}

#[test]
fn add_with_quote_or_bad_length_warns() {
    let mut app = KeyboardApp::new(Config::empty());
    app.handle_key(Key::Enter);
    app.process_add();
    app.set_name(s("x"));
    app.set_path(s("say \"hi\""));
    app.choose_terminal();
    app.handle_keys(&vec![Key::ArrowLeft, Key::ArrowLeft, Key::ArrowLeft, Key::Enter]);
    assert!(!app.process_add());
    assert!(app.warning());
    app.set_path(s("true"));
    app.handle_keys(&vec![Key::Tab]);
    assert!(!app.in_add_mode());
    assert!(!app.warning());
    app.handle_key(Key::Enter);
    app.process_add();
    app.set_name(s("x"));
    app.set_path(s("true"));
    app.choose_terminal();
    app.handle_keys(&vec![Key::ArrowLeft, Key::ArrowLeft, Key::Enter]);
    assert!(!app.process_add());
    assert!(app.warning());
}

#[test]
fn six_key_entry_clears_warning_and_restarts() {
    let mut app = KeyboardApp::new(Config::empty());
    app.handle_key(Key::Enter);
    app.process_add();
    app.handle_keys(&vec![Key::ArrowLeft, Key::Enter]);
    assert!(!app.process_add());
    assert!(app.warning());
    app.set_name(s("six"));
    app.set_path(s("true"));
    app.choose_terminal();
    app.handle_keys(&vec![Key::ArrowUp; 5]);
    app.handle_key(Key::Enter);
    assert!(app.process_add());
    assert!(!app.warning());
    assert!(!app.in_add_mode());
    assert_eq!(app.config().groups[3].names, vec![s("six")]);
}

#[test]
fn scan_launches_selected_entry_once() {
    let c = config_with_a3([Token::Up, Token::Left, Token::Up], "top", "top", "t");
    let mut app = KeyboardApp::new(c);
    app.handle_keys(&vec![Key::ArrowUp, Key::ArrowLeft]);
    let report = app.scan_rows(5000);
    assert_eq!(report.launch, None);
    assert_eq!(report.rows.len(), 1);
    assert_eq!(report.rows[0].colors, vec![Color::White, Color::Green, Color::Green, Color::White]);
    app.handle_key(Key::ArrowUp);
    let report = app.scan_rows(5000);
    assert_eq!(report.launch, Some((0, 0)));
    assert_eq!(report.rows[0].colors, vec![Color::Green; 4]);
    assert_eq!(app.log_timer(), Some(6000));
    let again = app.scan_rows(5500);
    assert_eq!(again.launch, None);
    app.end_frame(again.gray_rows, 5500);
    assert_eq!(app.input_log().len(), 3);
    app.end_frame(0, 6000);
    assert!(app.input_log().is_empty());
    assert_eq!(app.log_timer(), None);
}

#[test]
fn ruled_out_sequence_is_cleared_after_delay() {
    let c = config_with_a3([Token::Up, Token::Left, Token::Up], "top", "top", "t");
    let mut app = KeyboardApp::new(c);
    app.handle_key(Key::ArrowDown);
    let report = app.scan_rows(100);
    assert_eq!(report.gray_rows, 1);
    assert_eq!(report.rows[0].colors, vec![Color::Gray; 4]);
    app.end_frame(report.gray_rows, 100);
    assert_eq!(app.log_timer(), Some(1100));
    assert_eq!(app.input_log().len(), 1);
    app.end_frame(0, 1099);
    assert_eq!(app.input_log().len(), 1);
    app.end_frame(0, 1100);
    assert!(app.input_log().is_empty());
}

#[test]
fn delete_flow_removes_marked_entry() {
    let mut c = config_with_a3([Token::Up, Token::Left, Token::Up], "top", "top", "t");
    let ks = texts(&[Token::Down, Token::Down, Token::Down]);
    c.add_entry(0, &ks, s("files"), s("~"), s("x"));
    let mut app = KeyboardApp::new(c);
    app.handle_key(Key::Delete);
    assert!(app.in_delete_mode());
    app.handle_keys(&vec![Key::ArrowDown, Key::ArrowDown, Key::ArrowDown]);
    let report = app.scan_rows(0);
    assert_eq!(report.launch, None);
    assert_eq!(app.delete_target(), Some(1));
    assert!(app.delete_target_fits());
    assert!(app.confirm_delete());
    assert!(!app.in_delete_mode());
    assert_eq!(app.delete_target(), None);
    assert_eq!(app.config().groups[0].names, vec![s("top")]);
}

#[test]
fn delete_in_later_group_removes_marked_entry() {
    let mut c = config_with_a3([Token::Left, Token::Left, Token::Left], "a", "p", "t");
    let ks = texts(&[Token::Right; 4]);
    c.add_entry(1, &ks, s("b"), s("q"), s("t"));
    c.add_shell(s("sh"));
    let mut app = KeyboardApp::new(c);
    app.handle_key(Key::Delete);
    app.handle_keys(&vec![Key::ArrowRight; 4]);
    app.scan_rows(0);
    assert_eq!(app.delete_target(), Some(1));
    assert!(app.delete_target_fits());
    assert!(app.confirm_delete());
    assert_eq!(app.config().groups[0].names, vec![s("a")]);
    assert!(app.config().groups[1].names.is_empty());
    assert!(app.config().groups[1].keys.iter().all(|col| col.is_empty()));
    assert!(app.config().groups[1].paths.is_empty());
    assert!(app.config().groups[1].modes.is_empty());
}

#[test]
fn cancel_delete_leaves_mode() {
    let mut app = KeyboardApp::new(Config::empty());
    app.handle_key(Key::Delete);
    app.handle_key(Key::ArrowUp);
    app.cancel_delete();
    assert!(!app.in_delete_mode());
    assert!(app.input_log().is_empty());
    assert!(!app.confirm_delete());
}

#[test]
fn confirm_shell_records_terminal() {
    let mut app = KeyboardApp::new(Config::empty());
    assert!(app.needs_shell());
    app.set_name(s("kitty"));
    app.confirm_shell();
    assert!(!app.needs_shell());
    assert_eq!(app.config().shell, vec![s("kitty")]);
    assert!(app.name().is_empty());
}

#[test]
fn add_mode_blocks_launch_and_timer_clear() {
    let c = config_with_a3([Token::Up, Token::Up, Token::Up], "top", "top", "t");
    let mut app = KeyboardApp::new(c);
    app.handle_key(Key::Enter);
    app.process_add();
    app.handle_keys(&vec![Key::ArrowUp; 3]);
    let report = app.scan_rows(0);
    assert_eq!(report.launch, None);
    assert_eq!(report.rows[0].colors, vec![Color::Green; 4]);
    app.end_frame(report.gray_rows, 0);
    app.end_frame(0, 5000);
    assert_eq!(app.input_log().len(), 3);
}

#[test]
fn scan_launches_first_selected_entry() {
    let mut c = config_with_a3([Token::Up, Token::Up, Token::Up], "first", "one", "t");
    let ks = texts(&[Token::Up, Token::Up, Token::Up, Token::Up]);
    c.add_entry(1, &ks, s("second"), s("two"), s("t"));
    c.add_entry(0, &texts(&[Token::Up, Token::Up, Token::Up]), s("third"), s("three"), s("t"));
    let mut app = KeyboardApp::new(c);
    app.handle_keys(&vec![Key::ArrowUp; 4]);
    let report = app.scan_rows(0);
    assert_eq!(report.launch, Some((0, 0)));
    assert_eq!(report.rows.len(), 3);
    assert_eq!((report.rows[0].group, report.rows[0].row), (0, 0));
    assert_eq!((report.rows[1].group, report.rows[1].row), (0, 1));
    assert_eq!((report.rows[2].group, report.rows[2].row), (1, 0));
    assert!(report.rows.iter().all(|r| r.colors[0] == Color::Green));
}

#[test]
fn delete_mode_marks_last_selected_entry() {
    let mut c = config_with_a3([Token::Up, Token::Up, Token::Up], "first", "one", "t");
    c.add_entry(0, &texts(&[Token::Up, Token::Up, Token::Up]), s("second"), s("two"), s("t"));
    c.add_entry(0, &texts(&[Token::Down, Token::Up, Token::Up]), s("other"), s("x"), s("t"));
    let mut app = KeyboardApp::new(c);
    app.handle_key(Key::Delete);
    let report = app.scan_rows(0);
    assert_eq!(app.delete_target(), None);
    assert_eq!(report.launch, None);
    app.handle_keys(&vec![Key::ArrowUp; 3]);
    let report = app.scan_rows(0);
    assert_eq!(report.launch, None);
    assert_eq!(app.log_timer(), None);
    assert_eq!(app.delete_target(), Some(1));
    assert_eq!(report.gray_rows, 1);
}

#[test]
fn added_entry_is_selected_by_its_keys() {
    let mut c = Config::empty();
    c.add_shell(s("xterm"));
    let mut app = KeyboardApp::new(c);
    app.handle_key(Key::Enter);
    app.process_add();
    app.set_name(s("n"));
    app.set_path(s("p"));
    app.choose_terminal();
    app.handle_keys(&vec![Key::ArrowDown, Key::ArrowUp, Key::ArrowLeft, Key::ArrowRight, Key::Enter]);
    assert!(app.process_add());
    assert_eq!(app.input_log(), &vec![Token::Down, Token::Up, Token::Left, Token::Right]);
    let report = app.scan_rows(0);
    assert_eq!(report.launch, Some((1, 0)));
    let cmd = app.config().launch_command(1, 0).unwrap();
    assert_eq!(cmd.program, "xterm");
    assert_eq!(cmd.args[3], "p");
}

#[test]
fn removing_the_added_entry_restores_config() {
    let mut c = config_with_a3([Token::Up, Token::Left, Token::Up], "a", "b", "t");
    let before = (c.groups[2].names.clone(), c.groups[2].keys.clone());
    let ks = texts(&[Token::Up; 5]);
    c.add_entry(2, &ks, s("n"), s("p"), s("x"));
    assert_eq!(c.total_rows(), 2);
    c.remove_entry(2, 0);
    assert_eq!((c.groups[2].names.clone(), c.groups[2].keys.clone()), before);
    assert_eq!(c.total_rows(), 1);
}

#[test]
fn escaping_is_compositional() {
    let a = "it's";
    let b = "a 'b'";
    let joined = format!("{}{}", a, b);
    assert_eq!(
        escape_single_quotes(&joined),
        format!("{}{}", escape_single_quotes(a), escape_single_quotes(b))
    );
}

#[test]
fn confirm_delete_past_all_entries() {
    let mut app = KeyboardApp::new(Config::empty());
    assert!(!app.confirm_delete());
    app.handle_key(Key::Delete);
    assert!(app.in_delete_mode());
}

#[test]
fn every_entry_ruled_out_counts_all_and_clears() {
    let mut c = config_with_a3([Token::Up, Token::Up, Token::Up], "a", "p", "t");
    c.add_entry(4, &texts(&[Token::Left; 7]), s("e"), s("q"), s("x"));
    let mut app = KeyboardApp::new(c);
    app.handle_key(Key::ArrowDown);
    let report = app.scan_rows(10);
    assert_eq!(report.gray_rows, 2);
    assert_eq!(report.gray_rows, app.config().total_rows());
    assert_eq!(report.launch, None);
    app.end_frame(report.gray_rows, 10);
    assert_eq!(app.log_timer(), Some(1010));
    app.end_frame(0, 1010);
    assert!(app.input_log().is_empty());
    assert_eq!(app.log_timer(), None);
}

#[test]
fn timer_blocks_launch_until_tokens_cleared() {
    let c = config_with_a3([Token::Up, Token::Up, Token::Up], "a", "p", "t");
    let mut app = KeyboardApp::new(c);
    app.handle_keys(&vec![Key::ArrowUp; 3]);
    assert_eq!(app.scan_rows(0).launch, Some((0, 0)));
    app.end_frame(0, 0);
    app.handle_key(Key::ArrowUp);
    assert_eq!(app.scan_rows(500).launch, None);
    app.end_frame(0, 500);
    assert_eq!(app.log_timer(), Some(1000));
    app.end_frame(0, 1000);
    assert!(app.input_log().is_empty());
    app.handle_keys(&vec![Key::ArrowUp; 3]);
    assert_eq!(app.scan_rows(1200).launch, Some((0, 0)));
}
