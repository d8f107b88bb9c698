use mergify_stack::progress::{
    FRAME_COUNT, Mark, Progress, Row, RowKind, State, Theme, display_width, frame_glyph,
    render_row, truncate_display,
};

fn pr_row(title: &str, word: &str, state: State, url: Option<&str>) -> Row {
    Row {
        kind: RowKind::Pr,
        title: title.to_string(),
        word: word.to_string(),
        detail: None,
        url: url.map(str::to_string),
        state,
    }
}

fn step_row(word: &str, state: State) -> Row {
    Row {
        kind: RowKind::Step,
        title: String::new(),
        word: word.to_string(),
        detail: None,
        url: None,
        state,
    }
}

fn plain() -> Theme {
    Theme::plain()
}

fn colored() -> Theme {
    Theme {
        enabled: true,
        dim: "\u{1b}[2m".to_string(),
        cyan: "\u{1b}[36m".to_string(),
        green: "\u{1b}[32m".to_string(),
        magenta: "\u{1b}[35m".to_string(),
        reset: "\u{1b}[0m".to_string(),
    }
}

/// The size that the terminal keeps.
const SIZE: Option<(u16, u16)> = None;

#[test]
fn resolved_pr_row_reserves_a_blank_detail_field() {
    let r = pr_row(
        "fix(stack): restore prefix-match",
        "updated",
        State::Resolved(Mark::Done),
        Some("https://example/pull/1618"),
    );
    assert_eq!(
        render_row(&r, 0, usize::MAX, &plain(), None),
        "    ✓ [updated]\t\thttps://example/pull/1618\tfix(stack): restore prefix-match"
    );
}

#[test]
fn step_row_without_title_is_glyph_and_label_only() {
    let r = step_row("fetching trunk", State::Active);
    assert_eq!(
        render_row(&r, 0, usize::MAX, &plain(), None),
        format!("  {} fetching trunk", frame_glyph(0))
    );
}

#[test]
fn pending_pr_row_has_empty_detail_and_url_fields() {
    let r = pr_row("title", "queued", State::Pending, None);
    assert_eq!(
        render_row(&r, 0, usize::MAX, &plain(), None),
        "    ◦ [queued]\t\t\ttitle"
    );
}

#[test]
fn empty_title_pr_row_stays_a_pr_row() {
    let r = pr_row("", "queued", State::Pending, None);
    let line = render_row(&r, 0, usize::MAX, &plain(), None);
    assert!(line.starts_with("    ◦ [queued]"), "got: {line}");
}

#[test]
fn active_row_shows_current_spinner_frame() {
    let r = pr_row("t", "updating", State::Active, None);
    assert!(
        render_row(&r, 2, usize::MAX, &plain(), None)
            .starts_with(&format!("    {} ", frame_glyph(2)))
    );
}

#[test]
fn create_row_without_url_renders_just_the_title() {
    let r = pr_row("new thing", "creating", State::Active, None);
    let line = render_row(&r, 0, usize::MAX, &plain(), None);
    assert!(!line.contains('#'), "got: {line}");
    assert!(line.ends_with("new thing"), "got: {line}");
}

#[test]
fn detail_segment_renders_between_status_and_url() {
    let mut r = pr_row("t", "updated", State::Resolved(Mark::Done), Some("u"));
    r.detail = Some("old7→new7".to_string());
    let line = render_row(&r, 0, usize::MAX, &plain(), None);
    assert_eq!(line, "    ✓ [updated]\told7→new7\tu\tt");
}

#[test]
fn tab_mode_keeps_url_in_a_fixed_field_with_or_without_detail() {
    let created = {
        let mut r = pr_row("t", "created", State::Resolved(Mark::Done), Some("u1645"));
        r.detail = Some("a649c67".to_string());
        r
    };
    let deleted = pr_row("t", "deleted", State::Resolved(Mark::Noop), Some("u1644"));
    let fields = |r: &Row| {
        render_row(r, 0, usize::MAX, &plain(), None)
            .split('\t')
            .map(str::to_string)
            .collect::<Vec<_>>()
    };
    let fc = fields(&created);
    let fd = fields(&deleted);
    assert_eq!(fc.len(), 4, "created: {fc:?}");
    assert_eq!(fd.len(), 4, "deleted: {fd:?}");
    assert_eq!((fc[1].as_str(), fc[2].as_str()), ("a649c67", "u1645"));
    assert_eq!((fd[1].as_str(), fd[2].as_str()), ("", "u1644"));
}

#[test]
fn detail_segment_is_dimmed_when_colored() {
    let mut r = pr_row("t", "created", State::Resolved(Mark::Done), None);
    r.detail = Some("new1234".to_string());
    let line = render_row(&r, 0, usize::MAX, &colored(), Some((9, 0, 7)));
    let theme = colored();
    assert!(
        line.contains(&format!("{}new1234{}", theme.dim, theme.reset)),
        "got: {line}"
    );
}

#[test]
fn long_row_is_truncated_to_one_line() {
    let r = pr_row(
        "a very long pull request title that will not fit",
        "updated",
        State::Resolved(Mark::Done),
        Some("https://example/pull/42"),
    );
    let line = render_row(&r, 0, 40, &plain(), None);
    assert!(
        display_width(&line) <= 40,
        "width {}: {line}",
        display_width(&line)
    );
    assert!(line.contains('…'), "got: {line}");
}

#[test]
fn color_wraps_glyph_and_status_tag_but_not_title() {
    let r = pr_row("plaintitle", "updated", State::Resolved(Mark::Done), None);
    let theme = colored();
    let line = render_row(&r, 0, usize::MAX, &theme, None);
    assert!(
        line.starts_with(&format!("    {}✓{}", theme.green, theme.reset)),
        "glyph green: {line}"
    );
    assert!(
        line.contains(&format!("{}[updated]{}", theme.green, theme.reset)),
        "status green: {line}"
    );
    assert!(line.contains("plaintitle"), "title plain: {line}");
}

#[test]
fn noop_row_uses_dim_dot() {
    let r = pr_row("t", "skipped", State::Resolved(Mark::Noop), None);
    assert!(render_row(&r, 0, usize::MAX, &plain(), None).starts_with("    · "));
}

#[test]
fn merged_mark_is_magenta_like_github() {
    let r = pr_row("t", "merged", State::Resolved(Mark::Merged), None);
    let theme = colored();
    let line = render_row(&r, 0, usize::MAX, &theme, None);
    assert!(
        line.starts_with(&format!("    {}·{}", theme.magenta, theme.reset)),
        "got: {line}"
    );
    assert!(
        line.contains(&format!("{}[merged]{}", theme.magenta, theme.reset)),
        "got: {line}"
    );
}

#[test]
fn aligned_cols_line_up_titles_across_rows() {
    let a = pr_row(
        "title-a",
        "updated",
        State::Resolved(Mark::Done),
        Some("u1"),
    );
    let b = pr_row(
        "title-b",
        "up-to-date",
        State::Resolved(Mark::Noop),
        Some("longer-url"),
    );
    let cols = Some(("up-to-date".len() + 2, "longer-url".len(), 0));
    let col_of = |s: &str, needle: &str| s[..s.find(needle).unwrap()].chars().count();
    let la = render_row(&a, 0, usize::MAX, &plain(), cols);
    let lb = render_row(&b, 0, usize::MAX, &plain(), cols);
    assert_eq!(
        col_of(&la, "title-a"),
        col_of(&lb, "title-b"),
        "a: {la:?}\nb: {lb:?}"
    );
}

#[test]
fn aligned_cols_line_up_titles_with_mixed_detail() {
    let with = {
        let mut r = pr_row(
            "title-a",
            "updated",
            State::Resolved(Mark::Done),
            Some("u1"),
        );
        r.detail = Some("old7→new7".to_string());
        r
    };
    let without = pr_row(
        "title-b",
        "up-to-date",
        State::Resolved(Mark::Noop),
        Some("u2"),
    );
    let cols = Some(("up-to-date".len() + 2, 2, "old7→new7".chars().count()));
    let col_of = |s: &str, needle: &str| s[..s.find(needle).unwrap()].chars().count();
    let la = render_row(&with, 0, usize::MAX, &plain(), cols);
    let lb = render_row(&without, 0, usize::MAX, &plain(), cols);
    assert_eq!(
        col_of(&la, "title-a"),
        col_of(&lb, "title-b"),
        "a: {la:?}\nb: {lb:?}"
    );
}

#[test]
fn display_width_expands_tabs_to_eight_column_stops() {
    assert_eq!(display_width("ab\tc"), 9);
    assert_eq!(display_width("\t"), 8);
    assert_eq!(display_width("plain"), 5);
}

#[test]
fn display_width_counts_wide_glyphs_as_two_columns() {
    let cjk = "日本語";
    assert_eq!(cjk.chars().count(), 3);
    assert_eq!(display_width(cjk), 6);
    assert!(display_width(cjk) > cjk.chars().count());
}

#[test]
fn truncate_respects_wide_glyph_budget() {
    let cjk = "日本語日本語日本語";
    let out = truncate_display(cjk, 8);
    assert!(
        display_width(&out) <= 8,
        "width {}: {out}",
        display_width(&out)
    );
}

#[test]
fn plain_mode_records_transcript_on_resolve_only() {
    let mut p = Progress::with_mode(false, plain(), 80, 24);
    let (idx, _) = p.add_pr("title", "queued", None, None, SIZE);
    assert!(p.transcript.is_empty(), "pending must not record");
    p.resolve(idx, Mark::Done, Some("updated"), SIZE);
    assert_eq!(p.transcript, vec!["    ✓ [updated]\t\t\ttitle".to_string()]);
}

#[test]
fn seal_resets_rows_and_draw_state() {
    let mut p = Progress::with_mode(false, plain(), 80, 24);
    let _ = p.add("fetching", SIZE);
    p.seal();
    assert!(p.rows.is_empty());
    assert_eq!(p.drawn, 0);
    assert!(p.cols.is_none());
    assert_eq!(p.add_pr("t", "queued", None, None, SIZE).0, 0);
}

#[test]
fn set_url_fills_a_created_rows_url() {
    let mut p = Progress::with_mode(false, plain(), 80, 24);
    let (idx, _) = p.add_pr("new pr", "queued", None, None, SIZE);
    p.set_url(idx, Some("https://example/pull/1630".to_string()));
    p.resolve(idx, Mark::Done, Some("created"), SIZE);
    assert_eq!(
        p.transcript,
        vec!["    ✓ [created]\t\thttps://example/pull/1630\tnew pr".to_string()]
    );
}

#[test]
fn cols_cache_tracks_widest_row() {
    let mut p = Progress::with_mode(false, plain(), 80, 24);
    p.add_pr("a", "queued", None, Some("short".into()), SIZE);
    assert_eq!(p.cols, Some(("queued".len() + 2, "short".len(), 0)));
    p.add_pr("b", "up-to-date", None, Some("longer-url".into()), SIZE);
    assert_eq!(
        p.cols,
        Some(("up-to-date".len() + 2, "longer-url".len(), 0))
    );
}

#[test]
fn overflow_degrades_without_oversized_cursor_up() {
    let mut p = Progress::with_mode(true, plain(), 80, 3);
    p.add("a", SIZE);
    p.add("b", SIZE);
    assert!(p.interactive, "still fits");
    p.add("c", SIZE);
    assert!(!p.interactive, "must have degraded to streaming");
    assert_eq!(p.drawn, 0);
    assert!(
        p.drawn < p.height,
        "cursor-up ({}) must stay within height ({})",
        p.drawn,
        p.height
    );
}

#[test]
fn the_spinner_turns_and_comes_back() {
    let mut p = Progress::with_mode(true, plain(), 80, 24);
    let (idx, first) = p.add("working", SIZE);
    assert_eq!(first, "\r\u{1b}[2K  ◦ working\n");
    assert!(p.activate(idx, "working", SIZE).contains(frame_glyph(0)));
    for i in 1..=FRAME_COUNT {
        let drawn = p.tick(idx, None, SIZE);
        assert!(drawn.starts_with("\u{1b}[1A"), "{drawn:?}");
        assert!(drawn.contains(frame_glyph(i % FRAME_COUNT)), "{drawn:?}");
    }
    assert_eq!(p.frame, 0);
}

#[test]
fn live_rows_never_fill_the_terminal() {
    let mut p = Progress::with_mode(true, plain(), 80, 24);
    for _ in 0..40 {
        p.add("step", Some((80, 10)));
        assert!(p.drawn < 10, "{}", p.drawn);
    }
    assert!(!p.interactive);
}

#[test]
fn streaming_prints_what_it_records() {
    let mut p = Progress::with_mode(false, plain(), 80, 24);
    let mut printed = String::new();
    let (idx, out) = p.add_pr("t", "queued", None, None, SIZE);
    printed.push_str(&out);
    printed.push_str(&p.note("a note"));
    printed.push_str(&p.add_resolved(Mark::Done, "step", SIZE));
    printed.push_str(&p.add_resolved_pr("u", Mark::Merged, "merged", None, SIZE));
    printed.push_str(&p.resolve(idx, Mark::Done, None, SIZE));
    let (last, transcript) = p.finish("bye");
    printed.push_str(&last);
    assert_eq!(
        transcript,
        vec![
            "a note",
            "  ✓ step",
            "    · [merged]\t\t\tu",
            "    ✓ [queued]\t\t\tt",
            "bye"
        ]
    );
    assert_eq!(printed, transcript.join("\n") + "\n");
}

#[test]
fn the_width_of_a_character_is_that_of_unicode() {
    for c in ['a', 'é', '日', '🎉', '\u{301}', '\u{7}', '…', 'ﾊ'] {
        let expected = unicode_width::UnicodeWidthChar::width(c).unwrap_or(0);
        assert_eq!(display_width(&c.to_string()), expected, "{c:?}");
    }
}

#[test]
fn no_character_takes_more_than_three_columns() {
    let widest = (0..=u32::from(char::MAX))
        .filter_map(char::from_u32)
        .filter_map(unicode_width::UnicodeWidthChar::width)
        .max();
    assert_eq!(widest, Some(3));
    assert_eq!(display_width("\u{17D8}"), 3);
}

#[test]
fn a_terminal_that_is_not_one_streams() {
    let p = Progress::new(false, Some((80, 24)), plain());
    assert!(!p.interactive);
    let p = Progress::new(true, Some((100, 30)), plain());
    assert!(p.interactive);
    assert_eq!((p.width, p.height), (100, 30));
}

#[test]
fn a_line_of_the_transcript_is_whole() {
    let mut p = Progress::with_mode(true, plain(), 20, 24);
    let title = "a title that no terminal of twenty columns can show";
    p.add_resolved_pr(title, Mark::Done, "updated", None, SIZE);
    let (_, transcript) = p.finish("bye");
    assert_eq!(transcript[0], format!("    ✓ [updated]\t\t\t{title}"));
}

#[test]
fn truncation_leaves_what_fits() {
    assert_eq!(truncate_display("abc", 3), "abc");
    assert_eq!(truncate_display("abcd", 3), "ab…");
    assert_eq!(truncate_display("日本", 3), "日…");
}
