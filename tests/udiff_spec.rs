use difflib::unified_diff;
use regex::Regex;
use sad::udiff::{apply_patches, patches, pure_diffs, udiff};

fn read_files() -> Vec<String> {
  vec![
    "use std::collections::HashSet;\nuse std::ffi::OsString;\n\npub fn first<T>(v: &[T]) -> Option<&T> {\n  v.get(0)\n}\n\n\n\npub fn len<T>(v: Vec<T>) -> usize {\n  v.len()\n}\n".to_owned(),
    "use std::fmt;\n\nstruct A<B> {\n  b: B,\n}\n\nimpl<B> A<B> {\n  fn new(b: B) -> Self {\n    Self { b }\n  }\n}\n\n// std is the standard library\nfn main() {\n  let a = A::new(1);\n  println!(\"{}\", a.b);\n}\n".to_owned(),
    "line one\nline two\n\n\nline five\nuse this\nline seven\nline eight\nline nine\nline ten\nline eleven\nline twelve\nuse that\n".to_owned(),
    "a single line about std\n".to_owned(),
    String::new(),
  ]
}

fn regexes() -> Vec<(Regex, String)> {
  vec![
    (r"std", "owo"),
    (r"<([^\)])>", "\\|$1"),
    (r"\n", r""),
    (r"use [^\n]+\n", ""),
    (r"use [^\n]+\n", "\n\nowo\n\nowo"),
    (r"\n+", ""),
    (r"\n+", "\n"),
  ]
  .into_iter()
  .map(|(s1, s2)| (Regex::new(s1).unwrap(), s2.to_owned()))
  .collect::<_>()
}

fn diffs() -> Vec<(Vec<String>, Vec<String>)> {
  let texts = read_files();
  let regexes = regexes();
  let mut acc = Vec::new();
  for text in texts {
    for re in &regexes {
      let before = text
        .clone()
        .split_inclusive('\n')
        .map(String::from)
        .collect::<Vec<_>>();
      let after = re
        .0
        .replace_all(text.as_str(), re.1.as_str())
        .to_string()
        .split_inclusive('\n')
        .map(String::from)
        .collect::<Vec<_>>();
      acc.push((before, after));
    }
  }
  acc
}

#[test]
fn patch() {
  let diffs = diffs();
  for (unified, (before, after)) in diffs.into_iter().enumerate() {
    let ranges = pure_diffs(unified, &before, &after);

    let ps = patches(unified, &before, &after);
    let patched = apply_patches(ps, &ranges, &before);
    let imp = patched.into_iter().map(String::from).collect::<Vec<_>>();
    assert_eq!(imp, after);
  }
}

#[test]
fn unified() {
  let diffs = diffs();
  for (unified, (before, after)) in diffs.into_iter().enumerate() {
    let canon = unified_diff(&before, &after, "", "", "", "", unified)
      .iter()
      .skip(2)
      .map(|s| {
        if s.starts_with("@@") {
          "@@".to_owned()
        } else {
          s.clone()
        }
      })
      .collect::<Vec<_>>();
    let imp = String::from_utf8_lossy(&udiff(None, unified, b"", &before, &after))
      .split_inclusive('\n')
      .skip(3)
      .map(|s| {
        if s.starts_with("@@") {
          "@@".to_owned()
        } else {
          s.to_owned()
        }
      })
      .collect::<Vec<_>>();

    assert_eq!(imp, canon);
  }
}
