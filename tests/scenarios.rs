use sad::argparse::{
  handshake, join_fields, literal_flags, p_auto_flags, p_pager, p_regex, parse_fzf_mode, parse_opts,
  regex_flags, Action, Arguments, Engine, Environment, Mode, Options, Printer, PATCH_TOKEN,
  PREVIEW_TOKEN,
};
use sad::displace::{displace, fzf_listing, plan, Outcome};
use sad::errors::Die;
use sad::hunk_ref::parse_row;
use sad::input::{Canonical, InputStep, PatchGroups, RowIn, SeenPaths};
use sad::udiff::{apply_patches, patches, pure_diffs, udiff, DiffRange};

fn lines(text: &str) -> Vec<String> {
  text.split_inclusive('\n').map(String::from).collect()
}

fn args(pattern: &str, replace: &str) -> Arguments {
  Arguments {
    pattern: pattern.to_owned(),
    replace: Some(replace.to_owned()),
    read0: false,
    commit: false,
    exact: false,
    flags: None,
    pager: Some("never".to_owned()),
    fzf: Some("never".to_owned()),
    unified: None,
  }
}

fn env() -> Environment {
  Environment {
    cwd: None,
    git_pager: None,
    ttys: false,
  }
}

fn run(opts: &Options, input: &RowIn, content: &str) -> Outcome {
  displace(opts, input, b"f.txt", &lines(content)).expect("sizes fit")
}

fn printed(o: Outcome) -> String {
  match o {
    Outcome::Print(p) => String::from_utf8(p).unwrap(),
    Outcome::Write(_, _) => panic!("expected a print"),
  }
}

#[test]
fn preview_single_line() {
  let opts = parse_opts(Mode::Initial, args("hi", "yo"), env()).unwrap();
  assert!(matches!(opts.action, Action::Preview));
  assert!(matches!(opts.printer, Printer::Stdout));
  assert_eq!(opts.unified, 3);
  let out = printed(run(&opts, &RowIn::Entire(b"/f.txt".to_vec()), "hi\n"));
  assert_eq!(
    out,
    "diff --git f.txt f.txt\n--- f.txt\n+++ f.txt\n@@ -1,1 +1,1 @@\n-hi\n+yo\n"
  );
}

#[test]
fn commit_exact_literal() {
  let mut a = args("a", "b");
  a.exact = true;
  a.commit = true;
  let opts = parse_opts(Mode::Initial, a, env()).unwrap();
  assert!(matches!(opts.engine, Engine::AhoCorasick(_, _)));
  match run(&opts, &RowIn::Entire(b"/f.txt".to_vec()), "aa\n") {
    Outcome::Write(content, report) => {
      assert_eq!(content, b"bb\n".to_vec());
      assert_eq!(report, b"f.txt\n".to_vec());
    }
    Outcome::Print(_) => panic!("expected a write"),
  }
}

#[test]
fn preview_deletion() {
  let opts = parse_opts(Mode::Initial, args("x", ""), env()).unwrap();
  let out = printed(run(&opts, &RowIn::Entire(b"/f.txt".to_vec()), "axb\n"));
  assert_eq!(out.matches("@@ -").count(), 1);
  assert!(out.ends_with("@@ -1,1 +1,1 @@\n-axb\n+ab\n"));
}

#[test]
fn uppercase_pattern_is_case_sensitive() {
  let flags = p_auto_flags(false, "FOO");
  assert_eq!(flags, vec!["i", "m", "I"]);
  let opts = parse_opts(Mode::Initial, args("FOO", "bar"), env()).unwrap();
  let out = printed(run(&opts, &RowIn::Entire(b"/f.txt".to_vec()), "foo\n"));
  assert_eq!(out, "");
  let opts = parse_opts(Mode::Initial, args("foo", "bar"), env()).unwrap();
  let out = printed(run(&opts, &RowIn::Entire(b"/f.txt".to_vec()), "FOO\n"));
  assert!(out.contains("+bar\n"));
}

#[test]
fn auto_flags_literal() {
  assert_eq!(p_auto_flags(true, "abc"), vec!["i"]);
  assert_eq!(p_auto_flags(false, "abc"), vec!["i", "m"]);
  assert_eq!(p_auto_flags(true, "aBc"), vec!["i", "I"]);
}

#[test]
fn user_flags_change_matching() {
  let mut a = args("a.b", "X");
  a.flags = Some("s".to_owned());
  let opts = parse_opts(Mode::Initial, a, env()).unwrap();
  let out = printed(run(&opts, &RowIn::Entire(b"/f.txt".to_vec()), "a\nb\n"));
  assert!(out.contains("+X\n"));
  let opts = parse_opts(Mode::Initial, args("a.b", "X"), env()).unwrap();
  let out = printed(run(&opts, &RowIn::Entire(b"/f.txt".to_vec()), "a\nb\n"));
  assert_eq!(out, "");
}

#[test]
fn refused_flag_is_argument_error() {
  let mut a = args("x", "y");
  a.flags = Some("iz".to_owned());
  match parse_opts(Mode::Initial, a, env()) {
    Err(Die::ArgumentError(m)) => assert_eq!(m, "Invalid regex flag, see `--help` :: z"),
    other => panic!("unexpected {other:?}"),
  }
  let mut a = args("x", "y");
  a.exact = true;
  a.flags = Some("m".to_owned());
  assert!(matches!(
    parse_opts(Mode::Initial, a, env()),
    Err(Die::ArgumentError(_))
  ));
}

#[test]
fn bad_pattern_is_regex_error() {
  assert!(matches!(
    parse_opts(Mode::Initial, args("(", "y"), env()),
    Err(Die::RegexError(_))
  ));
}

#[test]
fn flag_letters_last_wins() {
  let f = regex_flags(&vec!["i".to_owned(), "I".to_owned(), "x".to_owned()]).unwrap();
  assert!(!f.case_insensitive);
  assert!(f.ignore_whitespace);
  assert!(!f.multi_line);
  assert_eq!(literal_flags(&vec!["I".to_owned(), "i".to_owned()]).unwrap(), true);
  assert!(literal_flags(&vec!["s".to_owned()]).is_err());
}

#[test]
fn commit_action_in_patch_mode() {
  let opts = parse_opts(Mode::Patch("/tmp/sel".to_owned()), args("a", "b"), env()).unwrap();
  assert!(matches!(opts.action, Action::Commit));
  let mut a = args("a", "b");
  a.unified = Some(7);
  let opts = parse_opts(Mode::Preview("/tmp/sel".to_owned()), a, env()).unwrap();
  assert!(matches!(opts.action, Action::Preview));
  assert_eq!(opts.unified, 7);
}

#[test]
fn round_trip_applies_every_hunk() {
  let before = lines("a\nb\nc\nd\ne\nf\ng\nh\ni\nj\nk\nl\n");
  let after = lines("a\nB\nc\nd\ne\nf\ng\nh\ni\nj\nK\nl\nm");
  for unified in 0..4 {
    let ranges = pure_diffs(unified, &before, &after);
    let ps = patches(unified, &before, &after);
    let out = apply_patches(ps, &ranges, &before);
    assert_eq!(out.concat(), after.concat());
  }
  let ranges = pure_diffs(1, &before, &after);
  assert_eq!(ranges.len(), 2);
  assert_eq!(ranges[0], DiffRange { before: (0, 3), after: (0, 3) });
}

#[test]
fn no_selection_keeps_old_text() {
  let before = lines("a\nb\nc\n");
  let after = lines("a\nx\nc\n");
  let ps = patches(3, &before, &after);
  let out = apply_patches(ps, &[], &before);
  assert_eq!(out.concat(), "a\nb\nc\n");
}

#[test]
fn selected_hunk_only() {
  let before = lines("a\nb\nc\nd\ne\nf\ng\nh\ni\nj\n");
  let after = lines("A\nb\nc\nd\ne\nf\ng\nh\ni\nJ\n");
  let ranges = pure_diffs(1, &before, &after);
  assert_eq!(ranges.len(), 2);
  let ps = patches(1, &before, &after);
  let out = apply_patches(ps, &ranges[1..], &before);
  assert_eq!(out.concat(), "a\nb\nc\nd\ne\nf\ng\nh\ni\nJ\n");
}

#[test]
fn last_line_without_newline() {
  let before = lines("a\nb");
  let after = lines("a\nc");
  let ranges = pure_diffs(3, &before, &after);
  let ps = patches(3, &before, &after);
  assert_eq!(apply_patches(ps, &ranges, &before).concat(), "a\nc");
  let text = String::from_utf8(udiff(None, 3, b"n", &before, &after)).unwrap();
  assert!(text.ends_with("@@ -1,2 +1,2 @@\n a\n-b+c"));
}

#[test]
fn equal_texts_have_no_hunks() {
  let before = lines("same\n");
  assert!(pure_diffs(3, &before, &before).is_empty());
  let empty: Vec<String> = Vec::new();
  assert!(pure_diffs(3, &empty, &empty).is_empty());
  let text = String::from_utf8(udiff(None, 3, b"n", &empty, &empty)).unwrap();
  assert_eq!(text, "diff --git n n\n--- n\n+++ n\n");
}

#[test]
fn udiff_keeps_selected_ranges() {
  let before = lines("a\nb\nc\nd\ne\nf\ng\nh\ni\nj\n");
  let after = lines("A\nb\nc\nd\ne\nf\ng\nh\ni\nJ\n");
  let ranges = pure_diffs(1, &before, &after);
  let text = String::from_utf8(udiff(Some(&ranges[1..]), 1, b"n", &before, &after)).unwrap();
  assert_eq!(text, "diff --git n n\n--- n\n+++ n\n@@ -9,2 +9,2 @@\n i\n-j\n+J\n");
}

#[test]
fn range_renders_and_parses_back() {
  let r = DiffRange { before: (4, 7), after: (0, 12) };
  assert_eq!(r.render(), b"@@ -5,7 +1,12 @@".to_vec());
  let mut row = b"/tmp/some file".to_vec();
  row.extend_from_slice(b"\n\n\n\n");
  row.extend_from_slice(&r.render());
  let h = parse_row(&row).unwrap();
  assert_eq!(h.path, b"/tmp/some file".to_vec());
  assert_eq!(h.range, r);
}

#[test]
fn malformed_rows_are_refused() {
  assert!(parse_row(b"/p\n\n\n\n@@ -0,1 +1,1 @@").is_none());
  assert!(parse_row(b"/p\n\n\n@@ -1,1 +1,1 @@").is_none());
  assert!(parse_row(b"/p\n\n\n\n@@ -1,1 +1,1 @@\n").is_none());
  assert!(parse_row(b"/p\n\n\n\n@@ -1,x +1,1 @@").is_none());
  assert!(parse_row(b"/p\n\n\n\n@@ -99999999999999999999999,1 +1,1 @@").is_none());
  let h = parse_row(b"\n\n\n\n@@ -007,0 +3,2 @@").unwrap();
  assert_eq!(h.path, Vec::<u8>::new());
  assert_eq!(h.range, DiffRange { before: (6, 0), after: (2, 2) });
}

#[test]
fn duplicate_paths_emitted_once() {
  let mut seen = SeenPaths::new();
  let first = seen.step(Canonical::Found(b"/a".to_vec()));
  assert!(matches!(first, InputStep::Emit(RowIn::Entire(ref p)) if p == b"/a"));
  assert!(matches!(seen.step(Canonical::Found(b"/a".to_vec())), InputStep::Skip));
  assert!(matches!(seen.step(Canonical::Missing), InputStep::Skip));
  assert!(matches!(seen.step(Canonical::Found(b"/b".to_vec())), InputStep::Emit(_)));
  assert!(matches!(seen.step(Canonical::Failed), InputStep::Stop));
  assert!(seen.contains(b"/b"));
  assert!(!seen.contains(b"/c"));
}

#[test]
fn hunk_refs_grouped_by_path() {
  let g = PatchGroups::new();
  let r1 = DiffRange { before: (0, 1), after: (0, 1) };
  let r2 = DiffRange { before: (5, 2), after: (5, 3) };
  let row = |p: &[u8], r: DiffRange| {
    let mut v = p.to_vec();
    v.extend_from_slice(b"\n\n\n\n");
    v.extend_from_slice(&r.render());
    parse_row(&v).unwrap()
  };
  let (g, out) = g.push(row(b"/a", r1));
  assert!(out.is_none());
  let (g, out) = g.push(row(b"/a", r2));
  assert!(out.is_none());
  let (g, out) = g.push(row(b"/b", r1));
  match out {
    Some(RowIn::Piecewise(p, rs)) => {
      assert_eq!(p, b"/a".to_vec());
      assert_eq!(rs, vec![r1, r2]);
    }
    _ => panic!("expected the first file"),
  }
  match g.finish() {
    Some(RowIn::Piecewise(p, rs)) => {
      assert_eq!(p, b"/b".to_vec());
      assert_eq!(rs, vec![r1]);
    }
    _ => panic!("expected the second file"),
  }
  assert!(PatchGroups::new().finish().is_none());
}

#[test]
fn fzf_handoff_then_patch() {
  let opts = Options {
    cwd: None,
    action: Action::FzfPreview("/usr/bin/fzf".into(), Vec::new()),
    engine: Engine::Regex(p_regex("hi", Vec::new()).unwrap(), "yo".to_owned()),
    printer: Printer::Stdout,
    unified: 3,
  };
  let content = "hi\n1\n2\n3\n4\n5\n6\n7\n8\n9\nhi\n";
  let out = match run(&opts, &RowIn::Entire(b"/f.txt".to_vec()), content) {
    Outcome::Print(p) => p,
    Outcome::Write(_, _) => panic!("expected a print"),
  };
  let records: Vec<&[u8]> = out.split(|b| *b == 0).filter(|r| !r.is_empty()).collect();
  assert_eq!(records.len(), 2);
  let text = String::from_utf8(records[1].to_vec()).unwrap();
  assert_eq!(text, "f.txt\n\n\n\n\x1b[31m@@ -8,4 +8,4 @@\x1b[0m");
  let plain = text.replace("\x1b[31m", "").replace("\x1b[0m", "");
  let h = parse_row(plain.as_bytes()).unwrap();
  assert_eq!(h.path, b"f.txt".to_vec());
  let commit = Options {
    cwd: None,
    action: Action::Commit,
    engine: Engine::Regex(p_regex("hi", Vec::new()).unwrap(), "yo".to_owned()),
    printer: Printer::Stdout,
    unified: 3,
  };
  let item = RowIn::Piecewise(b"/f.txt".to_vec(), vec![h.range]);
  match run(&commit, &item, content) {
    Outcome::Write(c, report) => {
      assert_eq!(String::from_utf8(c).unwrap(), "hi\n1\n2\n3\n4\n5\n6\n7\n8\n9\nyo\n");
      assert_eq!(report, b"f.txt\n".to_vec());
    }
    Outcome::Print(_) => panic!("expected a write"),
  }
}

#[test]
fn piecewise_commit_without_change_writes_nothing() {
  let commit = Options {
    cwd: None,
    action: Action::Commit,
    engine: Engine::Regex(p_regex("hi", Vec::new()).unwrap(), "yo".to_owned()),
    printer: Printer::Stdout,
    unified: 3,
  };
  let stale = DiffRange { before: (40, 1), after: (40, 1) };
  let item = RowIn::Piecewise(b"/f.txt".to_vec(), vec![stale]);
  match run(&commit, &item, "hi\n") {
    Outcome::Print(p) => assert!(p.is_empty()),
    Outcome::Write(_, _) => panic!("the content did not change"),
  }
}

#[test]
fn fzf_listing_paints_ranges() {
  let r = DiffRange { before: (0, 1), after: (0, 1) };
  let out = fzf_listing(b"n", &vec![r]);
  assert_eq!(out, b"n\n\n\n\n\x1b[31m@@ -1,1 +1,1 @@\x1b[0m\0".to_vec());
}

#[test]
fn plan_without_change_prints_nothing() {
  let before = lines("a\n");
  match plan(&Action::Commit, &RowIn::Entire(b"/a".to_vec()), 3, b"a", &before, &before) {
    Outcome::Print(p) => assert!(p.is_empty()),
    Outcome::Write(_, _) => panic!("nothing to write"),
  }
}

#[test]
fn handshake_payloads() {
  let preview = format!("{PREVIEW_TOKEN}\x04/tmp/sel");
  assert!(matches!(parse_fzf_mode(&preview), Some(Mode::Preview(p)) if p == "/tmp/sel"));
  let patch = format!("{PATCH_TOKEN}\x04/tmp/sel");
  assert!(matches!(parse_fzf_mode(&patch), Some(Mode::Patch(p)) if p == "/tmp/sel"));
  assert!(parse_fzf_mode("/tmp/sel").is_none());
  assert!(parse_fzf_mode(&format!("{patch}\x04x")).is_none());
  let argv = join_fields(&vec!["sad".to_owned(), "a".to_owned(), "b".to_owned()]);
  assert_eq!(argv, "sad\x04a\x04b");
  let (mode, args) = handshake(Some("-c".to_owned()), Some(patch.clone()), Some(argv))
    .unwrap()
    .unwrap();
  assert!(matches!(mode, Mode::Patch(_)));
  assert_eq!(args, vec!["sad", "a", "b"]);
  assert!(matches!(
    handshake(Some("-k".to_owned()), Some(patch.clone()), Some("x".to_owned())),
    Ok(None)
  ));
  assert!(matches!(
    handshake(Some("-c".to_owned()), Some(patch), None),
    Err(Die::ArgumentError(_))
  ));
  assert!(matches!(
    handshake(Some("-c".to_owned()), Some("/tmp/sel".to_owned()), Some("x".to_owned())),
    Err(Die::ArgumentError(_))
  ));
  assert!(matches!(handshake(None, None, None), Ok(None)));
}

#[test]
fn pager_never_and_words() {
  assert!(p_pager(&Some("never".to_owned()), &None).is_none());
  if let Some(cmd) = p_pager(&Some("cat -n 'a b'".to_owned()), &None) {
    assert_eq!(cmd.args, vec!["-n", "a b"]);
  }
  if let Some(cmd) = p_pager(&None, &Some(" cat -v | less".to_owned())) {
    assert_eq!(cmd.args, vec!["-v"]);
  }
}

#[test]
fn exit_codes() {
  assert_eq!(Die::Interrupt.exit_code(), 130);
  assert!(!Die::Interrupt.is_reported());
  assert_eq!(Die::Eof.exit_code(), 1);
  assert_eq!(Die::ArgumentError(String::new()).exit_code(), 1);
  assert!(Die::ArgumentError(String::new()).is_reported());
}

#[test]
fn patch_lines_match_new_text() {
  let before = lines("a\nb\nc\nd\ne\nf\ng\nh\ni\nj\n");
  let after = lines("A\nb\nc\nd\ne\nf\ng\nh\ni\nJ\n");
  let ranges = pure_diffs(1, &before, &after);
  for (k, r) in ranges.iter().enumerate() {
    let ps = patches(1, &before, &after);
    let out = apply_patches(ps, &ranges[k..k + 1], &before);
    let mut expected: Vec<&str> = before[..r.before.0].iter().map(String::as_str).collect();
    expected.extend(after[r.after.0..r.after.0 + r.after.1].iter().map(String::as_str));
    expected.extend(before[r.before.0 + r.before.1..].iter().map(String::as_str));
    assert_eq!(out, expected);
  }
  assert!(ranges[0].before.0 + ranges[0].before.1 < ranges[1].before.0);
}

#[test]
fn engine_replace_literal_and_regex() {
  let mut a = args("a", "b");
  a.exact = true;
  let opts = parse_opts(Mode::Initial, a, env()).unwrap();
  assert_eq!(opts.engine.replace("banana"), "bbnbnb");
  let opts = parse_opts(Mode::Initial, args("(an)+", "<$1>"), env()).unwrap();
  assert_eq!(opts.engine.replace("banana"), "b<an>a");
}
