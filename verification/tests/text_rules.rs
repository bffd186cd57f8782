use yueduqi::matching::{fuzzy_match, merge_covers, normalize_name};
use yueduqi::parsers::guangyu::{clean_book_name, clean_content};
use yueduqi::parsers::{biquge, qixinge};
use yueduqi::types::Book;

fn book(title: &str, cover: Option<&str>, intro: Option<&str>) -> Book {
    Book {
        title: title.to_string(),
        author: None,
        cover: cover.map(|s| s.to_string()),
        intro: intro.map(|s| s.to_string()),
        kind: None,
        last_chapter: None,
        word_count: None,
        book_id: format!("id-{}", title),
        source_key: "biquge900".to_string(),
        source: "biquge900".to_string(),
        tab: String::new(),
    }
}

#[test]
fn normalize_drops_groups_symbols_and_case() {
    assert_eq!(normalize_name("斗破苍穹（精校版）"), "斗破苍穹");
    assert_eq!(normalize_name("Hello, World! (2nd)"), "helloworld");
    assert_eq!(normalize_name("(open only"), "openonly");
    assert_eq!(normalize_name("a(b\nc)d"), "abcd");
    assert_eq!(normalize_name("x(1)y（2）z"), "xyz");
    assert_eq!(normalize_name(""), "");
}

#[test]
fn normalize_twice_is_normalize_once() {
    for s in ["斗破苍穹（精校版）", "ABC def!", "a(b)c(d", "《遮天》"] {
        let once = normalize_name(s);
        assert_eq!(normalize_name(&once), once);
    }
}

#[test]
fn fuzzy_match_cases() {
    assert!(fuzzy_match("斗破苍穹", "斗破苍穹（全本）"));
    assert!(fuzzy_match("斗破苍穹（全本）", "斗破苍穹"));
    assert!(fuzzy_match("遮天", "《遮天》番外"));
    assert!(fuzzy_match("《遮天》番外", "遮天"));
    assert!(!fuzzy_match("遮天", "完美世界"));
    assert!(!fuzzy_match("!!!", "!!!"));
    assert!(!fuzzy_match("", "遮天"));
    assert!(fuzzy_match("Dou Po", "doupo"));
}

#[test]
fn merge_covers_fills_only_missing_fields() {
    let target = vec![
        book("斗破苍穹", None, None),
        book("遮天", Some("own.jpg"), None),
        book("完美世界", Some("a.jpg"), Some("own intro")),
        book("无名", None, None),
    ];
    let supplement = vec![
        book("斗破苍穹（精校版）", Some("dp.jpg"), Some("dp intro")),
        book("遮天", Some("zt.jpg"), Some("zt intro")),
        book("完美世界", Some("wm.jpg"), Some("wm intro")),
    ];
    let merged = merge_covers(target, &supplement);
    assert_eq!(merged.len(), 4);
    assert_eq!(merged[0].cover.as_deref(), Some("dp.jpg"));
    assert_eq!(merged[0].intro.as_deref(), Some("dp intro"));
    assert_eq!(merged[0].title, "斗破苍穹");
    assert_eq!(merged[0].book_id, "id-斗破苍穹");
    assert_eq!(merged[1].cover.as_deref(), Some("own.jpg"));
    assert_eq!(merged[1].intro.as_deref(), Some("zt intro"));
    assert_eq!(merged[2].cover.as_deref(), Some("a.jpg"));
    assert_eq!(merged[2].intro.as_deref(), Some("own intro"));
    assert_eq!(merged[3].cover, None);
    assert_eq!(merged[3].intro, None);
}

#[test]
fn merge_covers_takes_the_first_match() {
    let target = vec![book("遮天", None, None)];
    let supplement = vec![
        book("遮天", None, Some("first")),
        book("遮天", Some("second.jpg"), Some("second")),
    ];
    let merged = merge_covers(target, &supplement);
    assert_eq!(merged[0].cover, None);
    assert_eq!(merged[0].intro.as_deref(), Some("first"));
}

#[test]
fn merge_covers_twice_changes_nothing() {
    let supplement = vec![book("遮天", Some("zt.jpg"), None)];
    let once = merge_covers(vec![book("遮天", None, None)], &supplement);
    let twice = merge_covers(once.clone(), &supplement);
    assert_eq!(once, twice);
    let none = merge_covers(vec![book("遮天", None, None)], &[]);
    assert_eq!(none, vec![book("遮天", None, None)]);
}

#[test]
fn clean_book_name_removes_first_alias() {
    assert_eq!(clean_book_name("斗破苍穹（别名：斗破）"), "斗破苍穹");
    assert_eq!(clean_book_name(" 遮天(别名:遮天传) "), "遮天");
    assert_eq!(clean_book_name("甲(别名:一)乙(别名:二)"), "甲乙(别名:二)");
    assert_eq!(clean_book_name("完美世界（精校）"), "完美世界（精校）");
    assert_eq!(clean_book_name("无(别名:未闭合"), "无(别名:未闭合");
}

#[test]
fn guangyu_content_paragraphs() {
    let raw = "  第一段 ident=\"a1\"\n\n\t第二段\n ident=\"x\"  \n第三段";
    assert_eq!(clean_content(raw), "<p>第一段</p>\n<p>第二段</p>\n<p>第三段</p>");
    assert_eq!(clean_content(""), "");
    assert_eq!(clean_content("\n \n"), "");
    assert_eq!(clean_content("only ident=\"unclosed"), "<p>only ident=\"unclosed</p>");
}

#[test]
fn biquge_urls() {
    assert_eq!(biquge::to_abs_url(""), "");
    assert_eq!(biquge::to_abs_url("https://a.b/c"), "https://a.b/c");
    assert_eq!(biquge::to_abs_url("/book/1/"), "http://m.biquge900.com/book/1/");
    assert_eq!(biquge::to_abs_url("./1.html"), "http://m.biquge900.com/1.html");
    assert_eq!(biquge::to_abs_url("././2.html"), "http://m.biquge900.com/2.html");
    assert_eq!(biquge::to_abs_url("3.html"), "http://m.biquge900.com/3.html");
    let once = biquge::to_abs_url("./x.html");
    assert_eq!(biquge::to_abs_url(&once), once);
}

#[test]
fn qixinge_urls() {
    assert_eq!(qixinge::to_abs_url(""), "");
    assert_eq!(qixinge::to_abs_url("http://x.y"), "http://x.y");
    assert_eq!(qixinge::to_abs_url("/b/1/"), "http://www.qixinge.net/b/1/");
    assert_eq!(qixinge::to_abs_url("./1.html"), "http://www.qixinge.net/./1.html");
    let once = qixinge::to_abs_url("2.html");
    assert_eq!(qixinge::to_abs_url(&once), once);
}

#[test]
fn biquge_chapter_text() {
    let raw = "<div class=\"ad\">广告</div>&nbsp;&nbsp;第一段<br/>  第二段<br >\
               <a href=\"x\">链接</a>笔趣阁最新域名：m.biquge900.com，请牢记本域名并相互转告！<br/>\
               <script>var a = 1;</script><p>第三段</p>";
    assert_eq!(
        biquge::chapter_text(raw),
        "<p>&nbsp;&nbsp;第一段</p>\n<p>第二段</p>\n<p>m.biquge900.com</p>\n<p>第三段</p>"
    );
    assert_eq!(biquge::chapter_text("<div>a\nb</div>c"), "<p>a</p>\n<p>bc</p>");
    assert_eq!(biquge::chapter_text("<div>a</a>b</div>c"), "<p>c</p>");
    assert_eq!(biquge::chapter_text("<abbr>x</abbr>"), "<p>x</p>");
}

#[test]
fn qixinge_chapter_text() {
    let raw = "<div>广告</div>第一段<br>第二段<br/><br/><br/><br/>第三段\
               本章未完，点击下一页继续阅读<br>第(1/2)页<br>第 ( 2 / 3 ) 页尾";
    assert_eq!(
        qixinge::chapter_text(raw),
        "<p>第一段</p>\n<p>第二段</p>\n<p>第三段</p>\n<p>尾</p>"
    );
    assert_eq!(qixinge::chapter_text("<div>a</a>b"), "<p>b</p>");
    assert_eq!(qixinge::chapter_text("第１/２页x"), "<p>x</p>");
    assert_eq!(qixinge::chapter_text("第/2页"), "<p>第/2页</p>");
}

#[test]
fn qixinge_titles() {
    assert_eq!(qixinge::chapter_title(" 第一章 开始-《斗破苍穹》 "), "第一章 开始");
    assert_eq!(qixinge::chapter_title("第二章-《a》-《b》"), "第二章");
    assert_eq!(qixinge::chapter_title("第三章-《未闭合"), "第三章-《未闭合");
}

#[test]
fn element_names_end_at_a_word_boundary() {
    assert_eq!(qixinge::chapter_text("<a>x</a>y"), "<p>y</p>");
    assert_eq!(qixinge::chapter_text("<a x>x</div>y"), "<p>y</p>");
    assert_eq!(qixinge::chapter_text("<aé>x</a>y"), "<p>xy</p>");
    assert_eq!(qixinge::chapter_text("<a_>x</a>y"), "<p>xy</p>");
    assert_eq!(biquge::chapter_text("<a->x</a>y"), "<p>y</p>");
    assert_eq!(biquge::chapter_text("<aé>x</a>y"), "<p>y</p>");
}
