use bifur_core::fs_model::batch_rename;
use bifur_core::paths::{extension, file_stem};
use bifur_core::preview::{
    classify_mime, file_preview, preview_class, preview_class_in, text_preview, PreviewClass, PreviewKind,
};
use bifur_core::terminal::parser::Cell;
use bifur_core::terminal::styled_runs::style_runs;

#[test]
fn stems_and_extensions_follow_path_rules() {
    assert_eq!(file_stem("/a/photo.tar.gz"), Some("photo.tar".to_string()));
    assert_eq!(extension("/a/photo.tar.gz"), Some("gz".to_string()));
    assert_eq!(file_stem("/a/.bashrc"), Some(".bashrc".to_string()));
    assert_eq!(extension("/a/.bashrc"), None);
    assert_eq!(file_stem("notes"), Some("notes".to_string()));
    assert_eq!(extension("notes"), None);
    assert_eq!(file_stem("trailing."), Some("trailing".to_string()));
    assert_eq!(extension("trailing."), Some(String::new()));
    assert_eq!(file_stem("/"), None);
    assert_eq!(file_stem("dir/.."), None);
    assert_eq!(file_stem("dir/x.y/"), Some("x".to_string()));
}

#[test]
fn mime_types_classify_previews() {
    assert_eq!(classify_mime("image", "png"), PreviewClass::Image);
    assert_eq!(classify_mime("text", "plain"), PreviewClass::Text);
    assert_eq!(classify_mime("application", "json"), PreviewClass::Text);
    assert_eq!(classify_mime("application", "ld+json"), PreviewClass::Text);
    assert_eq!(classify_mime("application", "octet-stream"), PreviewClass::Binary);
    assert_eq!(classify_mime("Image", "png"), PreviewClass::Binary);
}

#[test]
fn preview_class_guesses_from_the_extension() {
    assert_eq!(preview_class("/p/cat.png"), PreviewClass::Image);
    assert_eq!(preview_class("/p/CAT.PNG"), PreviewClass::Image);
    assert_eq!(preview_class("/p/readme.txt"), PreviewClass::Text);
    assert_eq!(preview_class("/p/data.json"), PreviewClass::Text);
    assert_eq!(preview_class("/p/archive.zip"), PreviewClass::Binary);
    assert_eq!(preview_class("/p/Makefile"), PreviewClass::Binary);
    assert_eq!(preview_class("/p/.png"), PreviewClass::Binary);
}

#[test]
fn text_preview_keeps_the_first_five_thousand_characters() {
    assert_eq!(text_preview("short"), "short");
    let long: String = "é".repeat(6000);
    let shown = text_preview(&long);
    assert_eq!(shown.chars().count(), 5000);
    assert!(shown.chars().all(|c| c == 'é'));
    assert_eq!(text_preview(""), "");
}

#[test]
fn file_preview_builds_the_preview_kind() {
    assert!(matches!(file_preview(PreviewClass::Image, "x"), PreviewKind::Image));
    assert!(matches!(file_preview(PreviewClass::Binary, "x"), PreviewKind::Binary));
    match file_preview(PreviewClass::Text, "hello") {
        PreviewKind::Text(s) => assert_eq!(s, "hello"),
        _ => panic!("expected a text preview"),
    }
}

#[test]
fn batch_rename_substitutes_each_stem() {
    let names = batch_rename(
        vec!["/a/report.pdf".to_string(), "/b/photo.tar.gz".to_string(), "/".to_string()],
        "{name}_v2.{name}".to_string(),
    );
    assert_eq!(names, vec!["report_v2.report", "photo.tar_v2.photo.tar", "_v2."]);
}

#[test]
fn batch_rename_without_placeholder_repeats_the_pattern() {
    let names = batch_rename(
        vec!["/a/x.txt".to_string(), "/a/y".to_string()],
        "fixed".to_string(),
    );
    assert_eq!(names, vec!["fixed", "fixed"]);
    assert_eq!(batch_rename(vec![], "{name}".to_string()), Vec::<String>::new());
}

#[test]
fn batch_rename_expands_dollar_references_in_stems() {
    let names = batch_rename(vec!["/a/$0.txt".to_string()], "[{name}]".to_string());
    assert_eq!(names, vec!["[{name}]"]);
}

fn cell(ch: char, fg: u32, bold: bool) -> Cell {
    Cell { ch, fg, bg: 0, bold }
}

#[test]
fn rows_split_into_runs_of_one_rendition() {
    let row = vec![
        cell('a', 1, false),
        cell('b', 1, false),
        cell('c', 2, false),
        cell('d', 2, true),
        cell('e', 2, true),
    ];
    let runs = style_runs(&row);
    let texts: Vec<&str> = runs.iter().map(|r| r.text.as_str()).collect();
    assert_eq!(texts, vec!["ab", "c", "de"]);
    assert_eq!((runs[1].fg, runs[1].bold), (2, false));
    assert_eq!((runs[2].fg, runs[2].bold), (2, true));
    assert!(style_runs(&[]).is_empty());
}

#[test]
fn preview_class_takes_the_extension_by_the_platform_rules() {
    assert_eq!(preview_class_in(false, "C:\\x.rs\\.txt"), PreviewClass::Text);
    assert_eq!(preview_class_in(true, "C:\\x.rs\\.txt"), PreviewClass::Binary);
    assert_eq!(preview_class_in(true, "C:\\pics\\cat.PNG"), PreviewClass::Image);
}
