use yueduqi::commands::{check_book_id, check_chapter_ids, check_search_keyword, inner_source, inner_tab};
use yueduqi::parsers::guangyu::{
    after_attempt, books_from_items, catalog_params, chapters_from_items, content_fields,
    content_from_reply, hosts, hot_params, map_book, search_params, BookItem, ChapterItem,
    HostStep,
};
use yueduqi::parsers::{biquge, parse_source, qixinge, with_guangyu_covers, Source};
use yueduqi::types::{ApiResponse, Book};

fn gbk(s: &str) -> Vec<u8> {
    encoding_rs::GBK.encode(s).0.into_owned()
}

fn item(name: &str) -> BookItem {
    BookItem {
        book_name: Some(name.to_string()),
        author: Some("作者".to_string()),
        thumb_url: Some("http://img/1.jpg".to_string()),
        summary: Some("简介".to_string()),
        status: Some("连载".to_string()),
        score: Some("".to_string()),
        tags: Some("玄幻".to_string()),
        last_chapter_update_time: None,
        source: None,
        last_chapter_title: Some("第十章".to_string()),
        word_number: Some("100万".to_string()),
        book_id: Some("42".to_string()),
        tab: None,
    }
}

#[test]
fn sources_by_name() {
    assert_eq!(parse_source("guangyu"), Ok(Source::Guangyu));
    assert_eq!(parse_source("biquge900"), Ok(Source::Biquge900));
    assert_eq!(parse_source("qixinge"), Ok(Source::Qixinge));
    assert_eq!(parse_source("other"), Err("未知书源: other".to_string()));
    assert_eq!(parse_source(""), Err("未知书源: ".to_string()));
}

#[test]
fn command_argument_checks() {
    assert_eq!(check_search_keyword("  遮天 "), Ok("遮天".to_string()));
    assert_eq!(check_search_keyword(" \t\n"), Err("请输入搜索关键词".to_string()));
    assert_eq!(check_book_id(""), Err("缺少 bookId 参数".to_string()));
    assert_eq!(check_book_id("1"), Ok(()));
    assert_eq!(check_chapter_ids("1", ""), Err("缺少参数".to_string()));
    assert_eq!(check_chapter_ids("", "2"), Err("缺少参数".to_string()));
    assert_eq!(check_chapter_ids("1", "2"), Ok(()));
    assert_eq!(inner_source(), "番茄");
    assert_eq!(inner_tab(), "小说");
}

#[test]
fn replies_wrap_results() {
    let ok: ApiResponse<u32> = ApiResponse::from_result(Ok(3));
    assert!(ok.success);
    assert_eq!(ok.data, Some(3));
    assert_eq!(ok.error, None);
    let err: ApiResponse<u32> = ApiResponse::from_result(Err("坏".to_string()));
    assert!(!err.success);
    assert_eq!(err.data, None);
    assert_eq!(err.error.as_deref(), Some("坏"));
    let e: ApiResponse<u32> = ApiResponse::err("缺少参数");
    assert_eq!(e.error.as_deref(), Some("缺少参数"));
}

#[test]
fn host_fallback_steps() {
    let h = hosts();
    assert_eq!(h.len(), 7);
    assert_eq!(h[0], "https://v1.gyks.cf");
    assert_eq!(h[6], "https://v7.gyks.cf");
    assert!(matches!(after_attempt::<u32>(0, Ok(5)), HostStep::Done(Ok(5))));
    assert!(matches!(after_attempt::<u32>(0, Err("e".to_string())), HostStep::Retry(1)));
    assert!(matches!(after_attempt::<u32>(5, Err("e".to_string())), HostStep::Retry(6)));
    match after_attempt::<u32>(6, Err("last".to_string())) {
        HostStep::Done(Err(e)) => assert_eq!(e, "last"),
        _ => panic!("the last host ends the request"),
    }
}

#[test]
fn host_fallback_runs_to_first_success() {
    let outcomes: Vec<Result<u32, String>> =
        vec![Err("a".into()), Err("b".into()), Ok(7), Ok(8), Err("c".into()), Err("d".into()), Err("e".into())];
    let mut k = 0;
    let result = loop {
        match after_attempt(k, outcomes[k].clone()) {
            HostStep::Retry(n) => k = n,
            HostStep::Done(r) => break r,
        }
    };
    assert_eq!(result, Ok(7));
    let failures: Vec<Result<u32, String>> = (0..7).map(|i| Err(format!("e{}", i))).collect();
    let mut k = 0;
    let result = loop {
        match after_attempt(k, failures[k].clone()) {
            HostStep::Retry(n) => k = n,
            HostStep::Done(r) => break r,
        }
    };
    assert_eq!(result, Err("e6".to_string()));
}

#[test]
fn guangyu_queries() {
    let q = search_params("遮天");
    assert_eq!(q[0], ("title".to_string(), "遮天".to_string()));
    assert_eq!(q.len(), 5);
    assert_eq!(q[4], ("disabled_sources".to_string(), "0".to_string()));
    assert_eq!(hot_params()[2], ("bdtype".to_string(), "热搜榜".to_string()));
    assert_eq!(catalog_params("1", "番茄", "小说")[0], ("book_id".to_string(), "1".to_string()));
    let body = content_fields("9", "番茄", "小说");
    assert_eq!(body[1], ("item_id".to_string(), "9".to_string()));
    assert_eq!(body[6], ("version".to_string(), "4.11.5.1".to_string()));
}

#[test]
fn guangyu_book_records() {
    let b = map_book(&item("斗破苍穹（别名：斗破）"));
    assert_eq!(b.title, "斗破苍穹");
    assert_eq!(b.author.as_deref(), Some("作者"));
    assert_eq!(b.cover.as_deref(), Some("http://img/1.jpg"));
    assert_eq!(b.intro.as_deref(), Some("简介"));
    assert_eq!(b.kind.as_deref(), Some("连载 / 玄幻"));
    assert_eq!(b.last_chapter.as_deref(), Some("第十章"));
    assert_eq!(b.word_count.as_deref(), Some("100万"));
    assert_eq!(b.book_id, "42");
    assert_eq!(b.source_key, "guangyu");
    assert_eq!(b.source, "番茄");
    assert_eq!(b.tab, "小说");

    let bare = BookItem {
        book_name: None,
        author: None,
        thumb_url: None,
        summary: None,
        status: None,
        score: None,
        tags: None,
        last_chapter_update_time: None,
        source: Some("七猫".to_string()),
        last_chapter_title: None,
        word_number: None,
        book_id: None,
        tab: Some("听书".to_string()),
    };
    let b = map_book(&bare);
    assert_eq!(b.title, "");
    assert_eq!(b.kind, None);
    assert_eq!(b.last_chapter.as_deref(), Some("七猫"));
    assert_eq!(b.book_id, "");
    assert_eq!(b.source, "七猫");
    assert_eq!(b.tab, "听书");
}

#[test]
fn guangyu_lists() {
    let items: Vec<BookItem> = (0..20).map(|i| item(&format!("书{}", i))).collect();
    assert_eq!(books_from_items(&Some(items), Some(12)).len(), 12);
    let few: Vec<BookItem> = (0..3).map(|i| item(&format!("书{}", i))).collect();
    let books = books_from_items(&Some(few), Some(12));
    assert_eq!(books.len(), 3);
    assert_eq!(books[2].title, "书2");
    assert!(books_from_items(&None, None).is_empty());
    let chapters = chapters_from_items(&Some(vec![
        ChapterItem { title: Some("第一章".to_string()), item_id: Some("11".to_string()) },
        ChapterItem { title: None, item_id: None },
    ]));
    assert_eq!(chapters.len(), 2);
    assert_eq!(chapters[0].title, "第一章");
    assert_eq!(chapters[0].item_id, "11");
    assert_eq!(chapters[1].title, "");
    assert!(chapters_from_items(&None).is_empty());
}

#[test]
fn guangyu_content_replies() {
    let ok = content_from_reply(&Some("第一章".to_string()), &Some("甲\n乙".to_string())).unwrap();
    assert_eq!(ok.title, "第一章");
    assert_eq!(ok.content, "<p>甲</p>\n<p>乙</p>");
    let limited = content_from_reply(&None, &Some("错误：免登录访问次数已达上限".to_string()));
    assert_eq!(limited, Err("今日免费阅读次数已用完（每日3次），请明天再试".to_string()));
    let empty = content_from_reply(&None, &None).unwrap();
    assert_eq!(empty.title, "");
    assert_eq!(empty.content, "");
}

#[test]
fn biquge_requests() {
    assert_eq!(biquge::search_url(), "http://m.biquge900.com/modules/article/search.php");
    assert_eq!(biquge::referer(), "http://m.biquge900.com/");
    let mut expected = b"searchkey=".to_vec();
    expected.extend(gbk("遮天"));
    expected.extend(b"&t=1");
    assert_eq!(biquge::search_body("遮天"), expected);
    let body = biquge::search_body("遮天");
    assert_ne!(&body[10..body.len() - 4], "遮天".as_bytes());
    assert_eq!(biquge::page_text(&gbk("笔趣阁")), "笔趣阁");
}

#[test]
fn biquge_pages() {
    let page = "<html><body>\
        <div class=\"hot_sale\"><a href=\"/book/1/\"><p class=\"title\"> 遮天 </p><p class=\"author\">辰东</p><p class=\"review\"> 玄幻 </p></a></div>\
        <div class=\"hot_sale\"><a href=\"./2/\"><p>完美世界</p></a></div>\
        <div class=\"hot_sale\"><a href=\"\"><p class=\"title\">无链接</p></a></div>\
        <div class=\"hot_sale\"><span>没有链接</span></div>\
        <div class=\"hot_sale\"><a href=\"/book/3/\"><p class=\"title\">  </p></a></div>\
        </body></html>";
    let books = biquge::search_results(&gbk(page)).unwrap();
    assert_eq!(books.len(), 2);
    assert_eq!(books[0].title, "遮天");
    assert_eq!(books[0].author.as_deref(), Some("辰东"));
    assert_eq!(books[0].kind.as_deref(), Some("玄幻"));
    assert_eq!(books[0].book_id, "http://m.biquge900.com/book/1/");
    assert_eq!(books[0].source_key, "biquge900");
    assert_eq!(books[1].title, "完美世界");
    assert_eq!(books[1].author, None);
    assert_eq!(books[1].book_id, "http://m.biquge900.com/2/");

    let toc = "<div class=\"directoryArea\"><p><a href=\"/1.html\"> 第一章 </a></p>\
        <p><a href=\"\">空</a></p><p><a href=\"/3.html\"> </a></p><p><a href=\"4.html\">第四章</a></p></div>";
    let chapters = biquge::chapters_page(&gbk(toc)).unwrap();
    assert_eq!(chapters.len(), 2);
    assert_eq!(chapters[0].title, "第一章");
    assert_eq!(chapters[0].item_id, "http://m.biquge900.com/1.html");
    assert_eq!(chapters[1].item_id, "http://m.biquge900.com/4.html");

    let chapter = "<div class=\"title\"> 第一章 开始 </div><div id=\"chaptercontent\">甲<br/>乙<br><div>广告</div></div>";
    let c = biquge::content_page(&gbk(chapter)).unwrap();
    assert_eq!(c.title, "第一章 开始");
    assert_eq!(c.content, "<p>甲</p>\n<p>乙</p>");
    let bare = biquge::content_page(&gbk("<p>nothing</p>")).unwrap();
    assert_eq!(bare.title, "");
    assert_eq!(bare.content, "");
}

#[test]
fn qixinge_requests() {
    assert_eq!(qixinge::search_url("斗破 1"), "http://www.qixinge.net/search.php?q=%E6%96%97%E7%A0%B4%201&p=1");
    assert_eq!(qixinge::search_url("a-b_c.d~"), "http://www.qixinge.net/search.php?q=a-b_c.d~&p=1");
    assert_eq!(qixinge::referer(), "http://www.qixinge.net/");
}

#[test]
fn qixinge_pages() {
    let page = "<div class=\"col-md-6\"><dl><dt><img src=\"/cover/1.jpg\"></dt><dd>\
        <h3><a href=\"/b/1/\">[玄幻]斗破苍穹免费阅读小说</a></h3>\
        <p class=\"book_other\">作者：<span> 天蚕土豆 </span></p>\
        <p class=\"book_other\">类型：玄幻</p>\
        <p class=\"book_other\">状态：完结</p>\
        <p class=\"book_other\">最新：<a href=\"/b/1/9.html\"> 大结局 </a></p></dd></dl>\
        <dl><dd><h3><a href=\"/b/2/\">遮天</a></h3><p class=\"book_other\">:</p></dd></dl>\
        <dl><dd><h3><a href=\"/b/3/\">免费阅读小说</a></h3></dd></dl></div>";
    let books = qixinge::search_results(page).unwrap();
    assert_eq!(books.len(), 2);
    assert_eq!(books[0].title, "斗破苍穹");
    assert_eq!(books[0].cover.as_deref(), Some("http://www.qixinge.net/cover/1.jpg"));
    assert_eq!(books[0].author.as_deref(), Some("天蚕土豆"));
    assert_eq!(books[0].kind.as_deref(), Some("类型玄幻"));
    assert_eq!(books[0].last_chapter.as_deref(), Some("大结局"));
    assert_eq!(books[0].book_id, "http://www.qixinge.net/b/1/");
    assert_eq!(books[0].source, "qixinge");
    assert_eq!(books[1].title, "遮天");
    assert_eq!(books[1].cover, None);
    assert_eq!(books[1].author, None);
    assert_eq!(books[1].kind, None);

    let toc = "<ul class=\"book_list2\"><li><a href=\"1.html\">第一章</a></li><li><a>无链接</a></li></ul>";
    let chapters = qixinge::chapters_page(toc).unwrap();
    assert_eq!(chapters.len(), 1);
    assert_eq!(chapters[0].item_id, "http://www.qixinge.net/1.html");

    let chapter = "<h1>第一章 开始-《斗破苍穹》</h1><article class=\"font_max\">甲<br>第(1/2)页<br>乙</article>";
    let c = qixinge::content_page(chapter).unwrap();
    assert_eq!(c.title, "第一章 开始");
    assert_eq!(c.content, "<p>甲</p>\n<p>乙</p>");
}

fn listed(title: &str, cover: Option<&str>) -> Book {
    Book {
        title: title.to_string(),
        author: None,
        cover: cover.map(|c| c.to_string()),
        intro: None,
        kind: None,
        last_chapter: None,
        word_count: None,
        book_id: String::new(),
        source_key: String::new(),
        source: String::new(),
        tab: String::new(),
    }
}

#[test]
fn biquge_search_borrows_guangyu_covers() {
    let merged = with_guangyu_covers(Ok(vec![listed("遮天", None)]), Ok(vec![listed("遮天", Some("c.jpg"))])).unwrap();
    assert_eq!(merged[0].cover.as_deref(), Some("c.jpg"));
    let alone = with_guangyu_covers(Ok(vec![listed("遮天", None)]), Err("down".to_string())).unwrap();
    assert_eq!(alone[0].cover, None);
    assert_eq!(with_guangyu_covers(Err("x".to_string()), Ok(vec![])), Err("x".to_string()));
}

#[test]
fn white_space_around_keyword_changes_nothing() {
    for k in ["遮天", "斗破 苍穹", "", " "] {
        let padded = format!(" \t{}\n ", k);
        assert_eq!(check_search_keyword(&padded), check_search_keyword(k));
        let once = check_search_keyword(k);
        if let Ok(t) = &once {
            assert_eq!(check_search_keyword(t), once);
        }
    }
}

#[test]
fn chapter_pages_read_the_first_elements() {
    let chapter = "<h1> 第二章-《书》 </h1><h1>别的</h1>\
        <article class=\"font_max\">第一段</article><article class=\"font_max\">第二段</article>";
    let c = qixinge::content_page(chapter).unwrap();
    assert_eq!(c.title, "第二章");
    assert_eq!(c.content, "<p>第一段</p>");
    let page = "<div class=\"title\">甲</div><div class=\"title\">乙</div>\
        <div id=\"chaptercontent\">一</div>";
    let b = biquge::content_page(&gbk(page)).unwrap();
    assert_eq!(b.title, "甲");
    assert_eq!(b.content, "<p>一</p>");
}

#[test]
fn search_hits_keep_their_own_fields() {
    let page = "<div class=\"col-md-6\"><dl><dd><h3><a href=\"/b/7/\">书名</a></h3>\
        <p class=\"book_other\"><span>作者甲</span></p>\
        <p class=\"book_other\">类型：历史</p>\
        <p class=\"book_other\">状态</p>\
        <p class=\"book_other\"><a>末章</a></p></dd></dl></div>";
    let books = qixinge::search_results(page).unwrap();
    assert_eq!(books.len(), 1);
    assert_eq!(books[0].author.as_deref(), Some("作者甲"));
    assert_eq!(books[0].last_chapter.as_deref(), Some("末章"));
    assert_eq!(books[0].kind.as_deref(), Some("类型历史"));
}
