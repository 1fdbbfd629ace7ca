use provision::table::{
    find_data_start, parse_list_table, parse_upgrade_table, safe_slice, safe_slice_to_end,
    snap_back, snap_forward,
};

fn lines(v: &[&str]) -> Vec<String> {
    v.iter().map(|s| s.to_string()).collect()
}

#[test]
fn upgrade_table_single_row() {
    let input = lines(&[
        "Name      Id              Version   Available   Source",
        "Firefox   Mozilla.Firefox 130.0     131.0       winget",
    ]);
    let rows = parse_upgrade_table(&input);
    assert_eq!(rows.len(), 1);
    assert_eq!(rows[0].name, "Firefox");
    assert_eq!(rows[0].winget_id, "Mozilla.Firefox");
    assert_eq!(rows[0].current_version, "130.0");
    assert_eq!(rows[0].available_version, "131.0");
    assert_eq!(rows[0].source, "winget");
}

#[test]
fn upgrade_table_with_separator_and_summary() {
    let input = lines(&[
        "Checking sources...",
        "Name               Id                          Version Available Source",
        "-----------------------------------------------------------------------",
        "Visual Studio Code Microsoft.VisualStudioCode  1.94.0  1.95.0    winget",
        "Git                Git.Git                     2.46.0  2.47.0    winget",
        "2 upgrades available.",
    ]);
    let rows = parse_upgrade_table(&input);
    assert_eq!(rows.len(), 2);
    assert_eq!(rows[0].name, "Visual Studio Code");
    assert_eq!(rows[0].winget_id, "Microsoft.VisualStudioCode");
    assert_eq!(rows[0].current_version, "1.94.0");
    assert_eq!(rows[0].available_version, "1.95.0");
    assert_eq!(rows[1].winget_id, "Git.Git");
    assert_eq!(rows[1].source, "winget");
}

#[test]
fn upgrade_table_without_source_column() {
    let input = lines(&[
        "Name  Id      Version Available",
        "Tool  Foo.Bar 1.0     2.0",
    ]);
    let rows = parse_upgrade_table(&input);
    assert_eq!(rows.len(), 1);
    assert_eq!(rows[0].available_version, "2.0");
    assert_eq!(rows[0].source, "");
}

#[test]
fn upgrade_rows_without_id_or_available_are_dropped() {
    let input = lines(&[
        "Name  Id      Version Available Source",
        "Tool          1.0     2.0       winget",
        "Thing Foo.Bar 1.0               winget",
        "Ok    Ok.Ok   1.0     2.0       winget",
    ]);
    let rows = parse_upgrade_table(&input);
    assert_eq!(rows.len(), 1);
    assert_eq!(rows[0].winget_id, "Ok.Ok");
}

#[test]
fn upgrade_rows_shorter_than_available_column_are_skipped() {
    let input = lines(&["Name  Id      Version Available Source", "short"]);
    assert!(parse_upgrade_table(&input).is_empty());
}

#[test]
fn no_header_gives_no_records() {
    let input = lines(&["No installed package found matching input criteria.", "Foo Bar"]);
    assert!(parse_upgrade_table(&input).is_empty());
    assert!(parse_list_table(&input).is_empty());
    assert!(parse_upgrade_table(&[]).is_empty());
    assert!(parse_list_table(&[]).is_empty());
}

#[test]
fn list_header_is_not_an_upgrade_header() {
    let input = lines(&["Name  Id      Version", "Tool  Foo.Bar 1.0"]);
    assert!(parse_upgrade_table(&input).is_empty());
    assert_eq!(parse_list_table(&input).len(), 1);
}

#[test]
fn list_table_lowercases_ids() {
    let input = lines(&[
        "Name             Id                    Version  Available Source",
        "----------------------------------------------------------------",
        "Mozilla Firefox  Mozilla.Firefox       131.0              winget",
        "7-Zip            7zip.7zip             24.08              winget",
    ]);
    let rows = parse_list_table(&input);
    assert_eq!(rows.len(), 2);
    assert_eq!(rows[0].winget_id, "mozilla.firefox");
    assert_eq!(rows[0].version, "131.0");
    assert_eq!(rows[1].winget_id, "7zip.7zip");
    assert_eq!(rows[1].version, "24.08");
}

#[test]
fn list_table_without_source_reads_version_to_end() {
    let input = lines(&["Name  Id      Version", "Tool  Foo.Bar 1.2.3 extra"]);
    let rows = parse_list_table(&input);
    assert_eq!(rows.len(), 1);
    assert_eq!(rows[0].winget_id, "foo.bar");
    assert_eq!(rows[0].version, "1.2.3 extra");
}

#[test]
fn offsets_come_from_each_header() {
    let narrow = lines(&["Name Id  Version Available", "A    B.C 1       2"]);
    let wide = lines(&["Name   Id    Version Available", "A      B.C   1       2"]);
    assert_eq!(parse_upgrade_table(&narrow)[0].winget_id, "B.C");
    assert_eq!(parse_upgrade_table(&wide)[0].winget_id, "B.C");
}

#[test]
fn data_starts_after_separator() {
    let input = lines(&["Name Id Version", "----  ----", "row"]);
    assert_eq!(find_data_start(&input, 0), 2);
    let boxed = lines(&["Name Id Version", "\u{2500}\u{2500}\u{2500} \u{2500}", "row"]);
    assert_eq!(find_data_start(&boxed, 0), 2);
}

#[test]
fn data_starts_right_after_header_without_separator() {
    let input = lines(&["Name Id Version", "row one", "-----"]);
    assert_eq!(find_data_start(&input, 0), 1);
    let last = lines(&["x", "Name Id Version"]);
    assert_eq!(find_data_start(&last, 1), 2);
}

#[test]
fn snapping_moves_to_character_boundaries() {
    let s = "a\u{e9}b\u{2588}c"; // bytes: a(0) e9(1..3) b(3) block(4..7) c(7)
    assert_eq!(snap_forward(s, 2), 3);
    assert_eq!(snap_back(s, 2), 1);
    assert_eq!(snap_forward(s, 5), 7);
    assert_eq!(snap_back(s, 6), 4);
    assert_eq!(snap_forward(s, 8), 8);
    assert_eq!(snap_back(s, 0), 0);
}

#[test]
fn snapping_past_the_end() {
    let s = "ab\u{e9}";
    assert_eq!(snap_forward(s, 100), 100);
    assert_eq!(snap_back(s, 100), 4);
    assert_eq!(snap_back(s, 3), 2);
}

#[test]
fn slices_never_split_characters() {
    let s = "\u{e9}\u{2588}\u{1f600}x";
    for start in 0..=s.len() + 2 {
        for end in 0..=s.len() + 2 {
            let piece = safe_slice(s, start, end);
            assert!(s.contains(piece.as_str()));
            let tail = safe_slice_to_end(s, start);
            assert!(s.ends_with(tail.as_str()));
        }
    }
    assert_eq!(safe_slice(s, 1, 6), "\u{2588}");
    assert_eq!(safe_slice(s, 0, 9), "\u{e9}\u{2588}\u{1f600}");
    assert_eq!(safe_slice_to_end(s, 6), "x");
    assert_eq!(safe_slice_to_end(s, 5), "\u{1f600}x");
}

#[test]
fn slices_are_clamped_and_trimmed() {
    assert_eq!(safe_slice("  ab  ", 0, 100), "ab");
    assert_eq!(safe_slice("abc", 2, 1), "");
    assert_eq!(safe_slice_to_end("abc", 10), "");
    assert_eq!(safe_slice_to_end("ab  cd  ", 2), "cd");
}

#[test]
fn multibyte_row_under_ascii_header() {
    let input = lines(&[
        "Name    Id      Version Available",
        "Caf\u{e9}    Foo.Bar 1.0     2.0",
    ]);
    let rows = parse_upgrade_table(&input);
    assert_eq!(rows.len(), 1);
    assert_eq!(rows[0].name, "Caf\u{e9}");
    assert_eq!(rows[0].winget_id, "Foo.Bar");
}
