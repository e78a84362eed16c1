use shell_ls::{
    assemble_output, date_field_from, directory_order, file_type_char, format_columns, format_date, list_directory, kind_from_mode, layout_columns,
    list_targets, long_format_line, long_format_line_from, parse_flags, permissions_string,
    render_directory, short_display_name, suffix_for, targets_of, total_header,
    trim_trailing_newline, visible_width, DateStamp, DirectoryEntry, EntryDetails, EntryKind,
    Listing, LsConfig, Target,
};

fn entry(name: &str, mode: u32) -> DirectoryEntry {
    DirectoryEntry {
        name: name.to_string(),
        mode,
        nlink: 1,
        uid: 1000,
        gid: 1000,
        size: 0,
        rdev: 0,
        mtime: 0,
        blocks: 0,
        link_target: None,
        target_mode: None,
    }
}

fn names_in(entries: &[DirectoryEntry], order: &[usize]) -> Vec<String> {
    order.iter().map(|&i| entries[i].name.clone()).collect()
}

fn config(show_all: bool, long_format: bool, classify: bool) -> LsConfig {
    LsConfig { show_all, long_format, classify }
}

#[test]
fn hidden_entries_are_left_out_without_all() {
    let es = vec![
        entry(".hidden", 0o100644),
        entry("b", 0o100644),
        entry(".", 0o040755),
        entry("A", 0o100644),
    ];
    let order = directory_order(&es, false);
    assert_eq!(names_in(&es, &order), vec!["A", "b"]);
}

#[test]
fn all_includes_dot_entries_in_sort_order() {
    let es = vec![
        entry(".", 0o040755),
        entry("..", 0o040755),
        entry("zeta", 0o100644),
        entry(".bashrc", 0o100644),
        entry("Apple", 0o100644),
    ];
    let order = directory_order(&es, true);
    assert_eq!(names_in(&es, &order), vec![".", "..", "Apple", ".bashrc", "zeta"]);
}

#[test]
fn sort_strips_one_dot_and_folds_case() {
    let es = vec![entry(".bashrc", 0o100644), entry("Apple", 0o100644), entry("banana", 0o100644)];
    let order = directory_order(&es, true);
    // keys "bashrc" and "banana" differ at their third letter, and n < s
    assert_eq!(names_in(&es, &order), vec!["Apple", "banana", ".bashrc"]);
}

#[test]
fn sort_keeps_enumeration_order_of_equal_keys() {
    let es = vec![entry("b", 0o100644), entry("B", 0o100644), entry("a", 0o100644), entry(".b", 0o100644)];
    let order = directory_order(&es, true);
    assert_eq!(order, vec![2, 0, 1, 3]);
}

#[test]
fn total_is_half_the_blocks_rounded_up() {
    let mut a = entry("a", 0o100644);
    a.blocks = 8;
    let mut b = entry("b", 0o100644);
    b.blocks = 3;
    let es = vec![a, b];
    assert_eq!(total_header(&es, &vec![0, 1]), "total 6");
    assert_eq!(total_header(&es, &vec![1]), "total 2");
    assert_eq!(total_header(&es, &vec![]), "total 0");
}

#[test]
fn empty_directory_in_long_format_is_total_zero() {
    let targets = vec![Target { name: ".".to_string(), listing: Listing::Directory(vec![]) }];
    let (text, diags) = list_targets(&targets, config(false, true, false));
    assert_eq!(text, "total 0");
    assert!(diags.is_empty());
}

#[test]
fn classify_suffixes() {
    assert_eq!(short_display_name(&entry("bin", 0o040755), true), "\u{1b}[34mbin/\u{1b}[0m");
    assert_eq!(short_display_name(&entry("run.sh", 0o100755), true), "\u{1b}[32mrun.sh*\u{1b}[0m");
    assert_eq!(short_display_name(&entry("notes.txt", 0o100644), true), "notes.txt");
    assert_eq!(short_display_name(&entry("bin", 0o040755), false), "\u{1b}[34mbin\u{1b}[0m");
}

#[test]
fn symlink_suffix_follows_the_target() {
    let mut l = entry("link", 0o120777);
    assert_eq!(suffix_for(&l), "@");
    l.target_mode = Some(0o040755);
    assert_eq!(suffix_for(&l), "/");
    l.target_mode = Some(0o100700);
    assert_eq!(suffix_for(&l), "*");
    assert_eq!(suffix_for(&entry("p", 0o010644)), "|");
    assert_eq!(suffix_for(&entry("s", 0o140755)), "=");
}

#[test]
fn permission_strings() {
    let lead = |mode: u32| format!("{}{}", file_type_char(kind_from_mode(mode)), permissions_string(mode));
    assert_eq!(lead(0o100644), "-rw-r--r--");
    assert_eq!(lead(0o040755), "drwxr-xr-x");
    assert_eq!(permissions_string(0o4644), "rwSr--r--");
    assert_eq!(permissions_string(0o4755), "rwsr-xr-x");
    assert_eq!(permissions_string(0o2750), "rwxr-s---");
    assert_eq!(permissions_string(0o1777), "rwxrwxrwt");
    assert_eq!(permissions_string(0o1776), "rwxrwxrwT");
}

#[test]
fn kinds_from_mode() {
    assert_eq!(kind_from_mode(0o100644), EntryKind::RegularFile);
    assert_eq!(kind_from_mode(0o060660), EntryKind::BlockDevice);
    assert_eq!(kind_from_mode(0o020666), EntryKind::CharDevice);
    assert_eq!(kind_from_mode(0o000644), EntryKind::Unknown);
    assert_eq!(file_type_char(EntryKind::Socket), 's');
    assert_eq!(file_type_char(EntryKind::Unknown), '?');
}

#[test]
fn column_layout_fills_columns_first() {
    let names: Vec<String> = ["a", "bb", "ccc", "dd", "e"].iter().map(|s| s.to_string()).collect();
    let text = layout_columns(&names, 20);
    assert_eq!(text, "a    ccc  e\nbb   dd\n");
    for line in text.lines() {
        assert!(visible_width(line) <= 20);
    }
}

#[test]
fn column_layout_ignores_escapes_in_widths() {
    let names = vec!["\u{1b}[34mbin\u{1b}[0m".to_string(), "x".to_string()];
    let text = layout_columns(&names, 80);
    assert_eq!(text, "\u{1b}[34mbin\u{1b}[0m  x\n");
    assert_eq!(visible_width("\u{1b}[34mbin\u{1b}[0m"), 3);
}

#[test]
fn column_layout_wide_names_one_per_line() {
    let names = vec!["abcdef".to_string(), "ab".to_string()];
    assert_eq!(layout_columns(&names, 4), "abcdef\nab\n");
    assert_eq!(layout_columns(&vec![], 4), "");
}

#[test]
fn column_layout_one_column_when_just_narrower() {
    let names = vec!["abc".to_string(), "d".to_string()];
    assert_eq!(layout_columns(&names, 4), "abc\nd\n");
}

#[test]
fn missing_target_gives_one_diagnostic() {
    let targets = vec![
        Target { name: "a".to_string(), listing: Listing::File(entry("a", 0o100644)) },
        Target {
            name: "missing".to_string(),
            listing: Listing::Failed("No such file or directory (os error 2)".to_string()),
        },
        Target { name: "d".to_string(), listing: Listing::Directory(vec![]) },
    ];
    let (text, diags) = list_targets(&targets, config(false, false, false));
    assert_eq!(text, "a:\na\n\nd:");
    assert_eq!(diags, vec!["ls: missing: No such file or directory (os error 2)".to_string()]);
}

#[test]
fn assembly_of_blocks() {
    let names = vec!["x".to_string(), "y".to_string()];
    let blocks = vec![Some("1\n".to_string()), Some("2\n".to_string())];
    assert_eq!(assemble_output(&names, &blocks), "x:\n1\n\ny:\n2");
    assert_eq!(assemble_output(&vec!["x".to_string()], &vec![Some("1\n".to_string())]), "1");
    assert_eq!(trim_trailing_newline("ab\n\n".to_string()), "ab\n");
    assert_eq!(trim_trailing_newline("ab".to_string()), "ab");
}

#[test]
fn flags_set_options_and_report_unknown_ones() {
    let flags: Vec<String> = ["a", "x", "l", "F"].iter().map(|s| s.to_string()).collect();
    let (c, errors) = parse_flags(&flags);
    assert_eq!(c, config(true, true, true));
    assert_eq!(errors, vec!["ls: invalid option -- 'x'".to_string()]);
    let (c, errors) = parse_flags(&vec![]);
    assert_eq!(c, config(false, false, false));
    assert!(errors.is_empty());
}

#[test]
fn no_arguments_lists_the_current_directory() {
    assert_eq!(targets_of(&vec![]), vec![".".to_string()]);
    let args = vec!["a".to_string(), "b".to_string()];
    assert_eq!(targets_of(&args), args);
}

#[test]
fn dates_in_this_year_and_others() {
    let d = DateStamp { year: 2024, month: 3, day: 5, hour: 9, minute: 7 };
    assert_eq!(format_date(Some(d), 2024), "Mar  5 09:07");
    assert_eq!(format_date(Some(d), 2025), "Mar  5  2024");
    let d = DateStamp { year: 999, month: 12, day: 25, hour: 23, minute: 59 };
    assert_eq!(format_date(Some(d), 2025), "Dec 25  0999");
    assert_eq!(format_date(None, 2025), "?");
    let d = DateStamp { year: 2023, month: 2, day: 30, hour: 1, minute: 2 };
    assert_eq!(format_date(Some(d), 2025), "?");
    assert_eq!(date_field_from(Some("Jan  1 00:00".to_string())), "Jan  1 00:00");
    assert_eq!(date_field_from(None), "?");
}

#[test]
fn long_line_fields() {
    let mut e = entry("notes.txt", 0o100644);
    e.size = 1234;
    let d = DateStamp { year: 2024, month: 3, day: 5, hour: 9, minute: 7 };
    let line = long_format_line_from(&e, &Some("alice".to_string()), &None, Some(d), 2024);
    assert_eq!(line, "-rw-r--r--  1 alice    1000         1234 Mar  5 09:07 notes.txt");
}

#[test]
fn long_line_of_device_and_link() {
    let mut dev = entry("tty", 0o020620);
    dev.rdev = (4 << 8) | 1;
    let d = DateStamp { year: 2020, month: 1, day: 15, hour: 0, minute: 0 };
    let line = long_format_line_from(&dev, &None, &None, Some(d), 2024);
    assert_eq!(line, "crw--w----  1 1000     1000       4,   1 Jan 15  2020 tty");
    let mut l = entry("link", 0o120777);
    l.link_target = Some("target".to_string());
    let line = long_format_line_from(&l, &None, &None, Some(d), 2020);
    assert_eq!(line, "lrwxrwxrwx  1 1000     1000            0 Jan 15 00:00 \u{1b}[36mlink\u{1b}[0m -> target");
}

#[test]
fn long_directory_rendering() {
    let mut a = entry("b.sh", 0o100755);
    a.blocks = 8;
    let mut b = entry("a", 0o040755);
    b.blocks = 8;
    let es = vec![a, b];
    let order = directory_order(&es, false);
    let d = DateStamp { year: 2024, month: 6, day: 1, hour: 12, minute: 30 };
    let details = vec![
        EntryDetails { user: Some("root".to_string()), group: Some("root".to_string()), date: Some(d) },
        EntryDetails { user: Some("root".to_string()), group: Some("root".to_string()), date: Some(d) },
    ];
    let text = render_directory(&es, &order, config(false, true, false), &details, 80, 2024);
    assert_eq!(
        text,
        "total 8\n\
drwxr-xr-x  1 root     root            0 Jun  1 12:30 \u{1b}[34ma\u{1b}[0m/\n\
-rwxr-xr-x  1 root     root            0 Jun  1 12:30 \u{1b}[32mb.sh\u{1b}[0m*\n"
    );
}

#[test]
fn long_line_with_system_lookups() {
    let e = entry("notes.txt", 0o100644);
    let line = long_format_line(&e);
    assert!(line.starts_with("-rw-r--r--  1 "));
    assert!(line.ends_with(" notes.txt"));
}

#[test]
fn terminal_columns_for_a_single_name() {
    assert_eq!(format_columns(&vec!["a".to_string()]), "a\n");
    assert_eq!(format_columns(&vec![]), "");
    let es = vec![entry(".x", 0o100644), entry("d", 0o040755)];
    assert_eq!(list_directory(&es, config(false, false, true)), "\u{1b}[34md/\u{1b}[0m\n");
}
