//! The cleaning rules checked against the regular-expression engines whose
//! patterns they follow, on many generated texts.

use regex::Regex;
use yueduqi::matching::normalize_name;
use yueduqi::parsers::guangyu::{clean_book_name, clean_content};
use yueduqi::parsers::{biquge, qixinge};

const PIECES: &[&str] = &[
    "a", "Z", "9", " ", "\t", "\n", "\n\n\n", "(", ")", "（", "）", "别名", ":", "：", "[", "]",
    "-《", "》", "<", ">", "<br>", "<br/>", "<br />", "<p>", "</p>", "<div>", "</div>", "<a href=\"x\">",
    "</a>", "<script>", "</script>", "<style>", "</style>", "<abbr>", "本章未完", "第", "页", "/",
    "1", "２", "ident=\"", "\"", "斗破", "笔趣阁最新域名：", "，请牢记本域名并相互转告！",
    "免费阅读小说", "\u{3000}", "é", "_",
];

struct Gen(u64);

impl Gen {
    fn next(&mut self) -> u64 {
        self.0 = self.0.wrapping_mul(6364136223846793005).wrapping_add(1442695040888963407);
        self.0 >> 33
    }

    fn text(&mut self) -> String {
        let n = (self.next() % 12) as usize;
        (0..n).map(|_| PIECES[(self.next() % PIECES.len() as u64) as usize]).collect()
    }
}

fn paragraphs(text: &str) -> String {
    text.split('\n')
        .map(|l| l.trim())
        .filter(|l| !l.is_empty())
        .map(|l| format!("<p>{}</p>", l))
        .collect::<Vec<_>>()
        .join("\n")
}

#[test]
fn normalize_agrees_with_regex_lite() {
    let paren = regex_lite::Regex::new(r"[（(].*?[）)]").unwrap();
    let sym = regex_lite::Regex::new(r"[^一-龥a-zA-Z0-9]").unwrap();
    let mut g = Gen(1);
    for _ in 0..3000 {
        let s = g.text();
        let expected = sym.replace_all(&paren.replace_all(&s, ""), "").to_lowercase();
        assert_eq!(normalize_name(&s), expected, "input {:?}", s);
    }
}

#[test]
fn book_name_agrees_with_regex_lite() {
    let alias = regex_lite::Regex::new(r"[（(]别名[：:].*?[）)]").unwrap();
    let mut g = Gen(2);
    for _ in 0..3000 {
        let s = g.text();
        let expected = alias.replace(&s, "").trim().to_string();
        assert_eq!(clean_book_name(&s), expected, "input {:?}", s);
    }
}

#[test]
fn guangyu_content_agrees_with_regex_lite() {
    let ident = regex_lite::Regex::new(r#"\s*ident="[^"]*""#).unwrap();
    let mut g = Gen(3);
    for _ in 0..3000 {
        let s = g.text();
        let expected = paragraphs(&ident.replace_all(&s, ""));
        assert_eq!(clean_content(&s), expected, "input {:?}", s);
    }
}

#[test]
fn biquge_text_agrees_with_regex_lite_without_elements() {
    let br = regex_lite::Regex::new(r"<br\s*/?>").unwrap();
    let tag = regex_lite::Regex::new(r"<[^>]+>").unwrap();
    let element = Regex::new(r"<(script|style|div|a)\b").unwrap();
    let mut g = Gen(4);
    let mut checked = 0;
    for _ in 0..6000 {
        let s = g.text();
        if element.is_match(&s) {
            continue;
        }
        let text = tag.replace_all(&br.replace_all(&s, "\n"), "").to_string();
        let text = text.replace("笔趣阁最新域名：", "").replace("，请牢记本域名并相互转告！", "");
        assert_eq!(biquge::chapter_text(&s), paragraphs(text.trim()), "input {:?}", s);
        checked += 1;
    }
    assert!(checked > 1000);
}

#[test]
fn qixinge_text_agrees_with_regex() {
    let element = Regex::new(r"<(script|style|div|a)\b[^>]*>.*?</(script|style|div|a)>").unwrap();
    let br = Regex::new(r"<br\s*/?>").unwrap();
    let tag = Regex::new(r"<[^>]+>").unwrap();
    let notice = Regex::new(r"本章未完.*").unwrap();
    let marker = Regex::new(r"第\s*\(?\s*\d+\s*/\s*\d+\s*\)?\s*页").unwrap();
    let blank = Regex::new(r"\n{3,}").unwrap();
    let mut g = Gen(5);
    for _ in 0..3000 {
        let s = g.text();
        let t = element.replace_all(&s, "");
        let t = br.replace_all(&t, "\n");
        let t = tag.replace_all(&t, "");
        let t = notice.replace_all(&t, "");
        let t = marker.replace_all(&t, "");
        let t = blank.replace_all(&t, "\n\n");
        assert_eq!(qixinge::chapter_text(&s), paragraphs(t.trim()), "input {:?}", s);
    }
}

#[test]
fn qixinge_title_agrees_with_regex() {
    let suffix = Regex::new(r"-《.*》").unwrap();
    let mut g = Gen(6);
    for _ in 0..3000 {
        let s = g.text();
        let expected = suffix.replace(s.trim(), "").trim().to_string();
        assert_eq!(qixinge::chapter_title(&s), expected, "input {:?}", s);
    }
}

#[test]
fn listed_name_agrees_with_regex() {
    let prefix = Regex::new(r"^\[.*?\]").unwrap();
    let mut g = Gen(7);
    for _ in 0..3000 {
        let s = g.text();
        let name = s.replace("免费阅读小说", "").trim().to_string();
        let expected = prefix.replace(&name, "").trim().to_string();
        assert_eq!(qixinge::listed_name(&s), expected, "input {:?}", s);
    }
}
