use startup_entries::guard::{check_entry_path, GuardError, TargetKind};
use startup_entries::model::{StartupEntry, StartupSource};
use startup_entries::ops::{
    delete_target, edited_entry, entry_file_name, new_user_entry, require_user_owned,
    selected_index, source_label, toggle_entry, EntryError,
};
use startup_entries::parse::parse_desktop_text;
use startup_entries::render::render_desktop_entry;
use startup_entries::slug::slugify;
use startup_entries::view::{apply_filter, sort_indices, FilterState, SortKey};

fn record(name: &str, enabled: bool, source: StartupSource) -> StartupEntry {
    StartupEntry {
        name: name.to_string(),
        command: "/bin/true".to_string(),
        enabled,
        source,
        path: None,
        extra: Vec::new(),
        localized_names: Vec::new(),
        entry_comments: Vec::new(),
        preamble: Vec::new(),
        other_groups: Vec::new(),
    }
}

fn pairs(v: &[(&str, &str)]) -> Vec<(String, String)> {
    v.iter().map(|(a, b)| (a.to_string(), b.to_string())).collect()
}

fn lines(v: &[&str]) -> Vec<String> {
    v.iter().map(|s| s.to_string()).collect()
}

#[test]
fn render_layout_is_exact() {
    let mut e = record("Foo", true, StartupSource::UserAutostart);
    e.preamble = lines(&["# top"]);
    e.entry_comments = lines(&["# inside"]);
    e.localized_names = pairs(&[("de", "Fu")]);
    e.extra = pairs(&[("X-A", "1"), ("Name", "dropped"), ("Name[fr]", "dropped"), ("Type", "x")]);
    e.other_groups = vec![lines(&["[One]", "a=1"]), lines(&["[Two]", "b=2"])];
    let text = render_desktop_entry(&e);
    assert_eq!(
        text,
        "# top\n\n[Desktop Entry]\n# inside\nType=Application\nName=Foo\nName[de]=Fu\nExec=/bin/true\nX-GNOME-Autostart-enabled=true\nHidden=false\nX-A=1\n\n[One]\na=1\n\n[Two]\nb=2\n"
    );
}

#[test]
fn render_disabled_writes_both_keys() {
    let e = record("Off", false, StartupSource::UserAutostart);
    let text = render_desktop_entry(&e);
    assert_eq!(
        text,
        "[Desktop Entry]\nType=Application\nName=Off\nExec=/bin/true\nX-GNOME-Autostart-enabled=false\nHidden=true\n"
    );
}

#[test]
fn parse_render_parse_keeps_fields() {
    let mut e = record("Round", false, StartupSource::UserAutostart);
    e.localized_names = pairs(&[("de", "Rund"), ("fr", "Rond")]);
    e.extra = pairs(&[("X-Test", "1"), ("X-Test", "2"), ("Comment", "a=b")]);
    e.other_groups = vec![lines(&["[One]", "a=1", ""]), lines(&["[Two]", "b=2"])];
    let text = render_desktop_entry(&e);
    let back = parse_desktop_text(&text, StartupSource::UserAutostart, None);
    assert_eq!(back.name, e.name);
    assert_eq!(back.command, e.command);
    assert_eq!(back.enabled, e.enabled);
    assert_eq!(back.extra, e.extra);
    assert_eq!(back.localized_names, e.localized_names);
    assert_eq!(back.other_groups, e.other_groups);
}

#[test]
fn parse_defaults_and_skips_malformed_lines() {
    let e = parse_desktop_text("[Desktop Entry]\nno separator here\nType=Application\n", StartupSource::SystemAutostart, None);
    assert_eq!(e.name, "Unnamed");
    assert_eq!(e.command, "");
    assert!(e.enabled);
    assert!(e.extra.is_empty());
    assert_eq!(e.source, StartupSource::SystemAutostart);
    assert_eq!(e.path, None);
}

#[test]
fn parse_last_enable_key_wins() {
    let a = parse_desktop_text("[Desktop Entry]\nHidden=true\nX-GNOME-Autostart-enabled=true\n", StartupSource::UserAutostart, None);
    assert!(a.enabled);
    let b = parse_desktop_text("[Desktop Entry]\nX-GNOME-Autostart-enabled=true\nHidden=true\n", StartupSource::UserAutostart, None);
    assert!(!b.enabled);
}

#[test]
fn parse_second_entry_section_overwrites() {
    let e = parse_desktop_text("[Desktop Entry]\nName=First\n[X]\nk=v\n[Desktop Entry]\nName=Second\n", StartupSource::UserAutostart, None);
    assert_eq!(e.name, "Second");
    assert_eq!(e.other_groups, vec![lines(&["[X]", "k=v"])]);
}

#[test]
fn parse_trims_and_handles_crlf() {
    let e = parse_desktop_text("pre\r\n[Desktop Entry]\r\n  Name  =  Spaced  \r\nName[x=bad\r\n", StartupSource::UserAutostart, None);
    assert_eq!(e.preamble, lines(&["pre"]));
    assert_eq!(e.name, "Spaced");
    assert!(e.localized_names.is_empty());
}

#[test]
fn parse_keeps_preamble_without_header() {
    let e = parse_desktop_text("only\nlines", StartupSource::UserAutostart, None);
    assert_eq!(e.preamble, lines(&["only", "lines"]));
}

#[test]
fn slugify_edges() {
    assert_eq!(slugify(" My  App--X "), "-my-app-x-");
    assert_eq!(slugify(""), "entry");
    assert_eq!(slugify("ÄB"), "b");
    assert_eq!(entry_file_name("My App"), "my-app.desktop");
}

#[test]
fn filter_all_off_shows_everything_but_other_sources_need_both_off() {
    let entries = vec![
        record("a", true, StartupSource::UserAutostart),
        record("b", false, StartupSource::Unknown),
        record("c", false, StartupSource::SystemAutostart),
    ];
    let off = FilterState { show_enabled: false, show_disabled: false, show_user: false, show_system: false };
    assert_eq!(apply_filter(&entries, &off), vec![0, 1, 2]);
    assert_eq!(apply_filter(&entries, &FilterState::default()), vec![0, 2]);
}

#[test]
fn enabled_first_breaks_ties_by_name() {
    let entries = vec![
        record("B", true, StartupSource::UserAutostart),
        record("A", false, StartupSource::UserAutostart),
        record("C", true, StartupSource::UserAutostart),
    ];
    assert_eq!(sort_indices(&entries, vec![2, 1, 0], SortKey::StatusEnabledFirst), vec![0, 2, 1]);
}

#[test]
fn sort_folds_case() {
    let entries = vec![record("b", true, StartupSource::UserAutostart), record("A", true, StartupSource::SystemAutostart)];
    assert_eq!(sort_indices(&entries, vec![0, 1], SortKey::NameAsc), vec![1, 0]);
    assert_eq!(sort_indices(&entries, vec![1, 0], SortKey::NameDesc), vec![0, 1]);
    let mixed = vec![record("a", true, StartupSource::UserAutostart), record("B", true, StartupSource::UserAutostart)];
    assert_eq!(sort_indices(&mixed, vec![1, 0], SortKey::NameAsc), vec![0, 1]);
    assert_eq!(sort_indices(&entries, vec![0, 1], SortKey::SourceSystemFirst), vec![1, 0]);
    assert_eq!(sort_indices(&entries, vec![1, 0], SortKey::SourceUserFirst), vec![0, 1]);
}

#[test]
fn guard_decisions() {
    let base = b"/home/u/.config/autostart";
    assert_eq!(check_entry_path(base, base, TargetKind::Missing), Ok(()));
    assert_eq!(check_entry_path(base, base, TargetKind::RegularFile), Ok(()));
    assert_eq!(check_entry_path(base, base, TargetKind::Symlink), Err(GuardError::SymlinkTarget));
    assert_eq!(check_entry_path(base, base, TargetKind::Other), Err(GuardError::NotRegularFile));
    assert_eq!(check_entry_path(base, b"/etc/xdg/autostart", TargetKind::RegularFile), Err(GuardError::PathTraversal));
    assert_eq!(check_entry_path(base, b"/home/u/.config", TargetKind::Symlink), Err(GuardError::PathTraversal));
}

#[test]
fn entry_operations() {
    assert_eq!(new_user_entry("  ", "/bin/x", b"p".to_vec()).unwrap_err(), EntryError::MissingField);
    assert_eq!(new_user_entry("N", " ", b"p".to_vec()).unwrap_err(), EntryError::MissingField);
    let e = new_user_entry("N", "/bin/x", b"p".to_vec()).unwrap();
    assert!(e.enabled);
    assert_eq!(e.path, Some(b"p".to_vec()));
    let mut s = record("S", true, StartupSource::SystemAutostart);
    assert_eq!(toggle_entry(&mut s), Err(EntryError::NotUserOwned));
    assert!(s.enabled);
    assert_eq!(require_user_owned(&s), Err(EntryError::NotUserOwned));
    let mut u = record("U", true, StartupSource::UserAutostart);
    assert_eq!(toggle_entry(&mut u), Ok(()));
    assert!(!u.enabled);
    let ed = edited_entry(u, "V".to_string(), "/bin/v".to_string()).unwrap();
    assert_eq!(ed.name, "V");
    assert!(!ed.enabled);
    assert_eq!(selected_index(None, 3), Err(EntryError::NoSelection));
    assert_eq!(selected_index(Some(3), 3), Err(EntryError::InvalidSelection));
    assert_eq!(selected_index(Some(2), 3), Ok(2));
    assert_eq!(source_label(&StartupSource::ShellProfile), "shell");
}

#[test]
fn comments_and_preamble_survive_an_edit() {
    let content = "# Preamble line 1\n\n[Desktop Entry]\n# comment inside\nName=Foo\nExec=/bin/true\n";
    let mut e = parse_desktop_text(content, StartupSource::UserAutostart, None);
    assert_eq!(toggle_entry(&mut e), Ok(()));
    let written = render_desktop_entry(&e);
    assert_eq!(
        written,
        "# Preamble line 1\n\n[Desktop Entry]\n# comment inside\nType=Application\nName=Foo\nExec=/bin/true\nX-GNOME-Autostart-enabled=false\nHidden=true\n"
    );
}

#[test]
fn render_ends_in_one_newline() {
    let mut e = record("End", true, StartupSource::UserAutostart);
    e.other_groups = vec![lines(&["[Last]", "k=v", "", ""])];
    let text = render_desktop_entry(&e);
    assert!(text.ends_with("k=v\n"));
    assert!(!text.ends_with("\n\n"));
}

#[test]
fn sort_keeps_order_of_ties() {
    let entries = vec![
        record("same", true, StartupSource::UserAutostart),
        record("Same", true, StartupSource::UserAutostart),
        record("other", false, StartupSource::UserAutostart),
    ];
    assert_eq!(sort_indices(&entries, vec![1, 0, 2], SortKey::NameAsc), vec![2, 1, 0]);
    assert_eq!(sort_indices(&entries, vec![0, 1, 2], SortKey::NameAsc), vec![2, 0, 1]);
    assert_eq!(sort_indices(&entries, vec![1, 2, 0], SortKey::StatusEnabledFirst), vec![1, 0, 2]);
}

#[test]
fn edit_refuses_blank_fields() {
    let u = record("U", true, StartupSource::UserAutostart);
    assert_eq!(edited_entry(u.clone(), " ".to_string(), "/bin/v".to_string()).unwrap_err(), EntryError::MissingField);
    assert_eq!(edited_entry(u.clone(), "V".to_string(), "".to_string()).unwrap_err(), EntryError::MissingField);
    let ok = edited_entry(u, "V".to_string(), "/bin/v".to_string()).unwrap();
    assert_eq!(ok.command, "/bin/v");
}

#[test]
fn delete_target_decisions() {
    let mut with_path = record("A", true, StartupSource::UserAutostart);
    with_path.path = Some(b"/home/u/.config/autostart/a.desktop".to_vec());
    let no_path = record("B", true, StartupSource::UserAutostart);
    let mut system = record("C", true, StartupSource::SystemAutostart);
    system.path = Some(b"/etc/xdg/autostart/c.desktop".to_vec());
    let entries = vec![with_path, no_path, system];
    assert_eq!(delete_target(&entries, None), Err(EntryError::NoSelection));
    assert_eq!(delete_target(&entries, Some(3)), Err(EntryError::InvalidSelection));
    assert_eq!(delete_target(&entries, Some(2)), Err(EntryError::NotUserOwned));
    assert_eq!(delete_target(&entries, Some(1)), Err(EntryError::NoPath));
    assert_eq!(delete_target(&entries, Some(0)), Ok(0));
}

#[test]
fn section_names_lose_brackets_of_either_kind() {
    let e = parse_desktop_text("[Desktop Entry[]\nName=Odd\n[[Other]]\nk=v\n", StartupSource::UserAutostart, None);
    assert_eq!(e.name, "Odd");
    assert_eq!(e.other_groups, vec![lines(&["[[Other]]", "k=v"])]);
}

#[test]
fn sections_survive_untrimmed_values() {
    let mut e = record("  padded  ", true, StartupSource::UserAutostart);
    e.extra = pairs(&[("a=b", " c "), ("Name", "known")]);
    e.localized_names = pairs(&[("x=y", " v")]);
    e.entry_comments = lines(&["Exec=/bin/other"]);
    e.other_groups = vec![lines(&["[One]", "a=1", ""]), lines(&["[Two]", "", "b=2"])];
    let text = render_desktop_entry(&e);
    let back = parse_desktop_text(&text, StartupSource::UserAutostart, None);
    assert_eq!(back.other_groups, e.other_groups);
    assert_eq!(back.name, "padded");
}
