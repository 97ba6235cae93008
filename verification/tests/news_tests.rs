use haj::news::{article_banner, article_date, article_lines, ArticleLine};
use haj::news::{
    copy_status, copyable_commands, extract_article_body,
    filter_news, is_command, news_report, NewsReport, latest_news_headline, merge_index_entries, merge_into_cache,
    news_item_index, news_page_count, news_row_down, news_row_up, news_selection_after_search,
    needs_body, next_news_page, news_index_page_needed, parse_arch_xml, parse_news_index,
    parse_news_total, sort_news_cache, IndexEntry,
};
use haj::tui::NewsItem;

const FEED: &str = "<rss><channel>\
<item><title>Glibc 2.40 &amp; friends</title><link>https://archlinux.org/news/glibc/</link>\
<pubDate>Mon, 01 Jul 2024 10:00:00 +0000</pubDate>\
<description>&lt;p&gt;Run &lt;code&gt;pacman -Syu&lt;/code&gt; now.&lt;/p&gt;&lt;ul&gt;&lt;li&gt;one&lt;/li&gt;&lt;/ul&gt;</description></item>\
<item><title></title><link>https://x/</link></item>\
<item><title>Quiet news</title><link>https://archlinux.org/news/quiet/</link>\
<pubDate>Tue, 02 Jul 2024 10:00:00 +0000</pubDate><description>&lt;b&gt;bold&lt;/b&gt; text</description></item>\
</channel></rss>";

fn item(title: &str, link: &str, date: &str, desc: &str) -> NewsItem {
    NewsItem {
        title: title.to_string(),
        link: link.to_string(),
        pub_date: date.to_string(),
        description: desc.to_string(),
        is_critical: false,
    }
}

#[test]
fn feed_items_are_read_in_order() {
    let items = parse_arch_xml(FEED);
    assert_eq!(items.len(), 2);
    assert_eq!(items[0].title, "Glibc 2.40 & friends");
    assert_eq!(items[0].link, "https://archlinux.org/news/glibc/");
    assert_eq!(items[0].pub_date, "Mon, 01 Jul 2024 10:00:00 +0000");
    assert_eq!(items[0].description, "Run <code>pacman -Syu</code> now.\n\n• one\n\n");
    assert!(items[0].is_critical);
    assert_eq!(items[1].title, "Quiet news");
    assert_eq!(items[1].description, "bold text");
    assert!(!items[1].is_critical);
}

#[test]
fn feed_with_reversed_tags_is_read_without_panic() {
    assert_eq!(parse_arch_xml("<item></title><title>x</item>").len(), 0);
    let items = parse_arch_xml("<item><title>T</title></link>x<link></item>");
    assert_eq!(items.len(), 1);
    assert_eq!(items[0].title, "T");
    assert_eq!(items[0].link, "");
    assert_eq!(parse_arch_xml("no items at all").len(), 0);
}

#[test]
fn commands_are_recognised_after_trimming() {
    assert!(is_command("  pacman -Syu"));
    assert!(is_command("systemctl restart x"));
    assert!(is_command("grub-install --target=x86_64-efi"));
    assert!(!is_command("pacman"));
    assert!(!is_command("# pacman -Syu"));
    assert!(!is_command("run pacman -Syu"));
}

#[test]
fn news_total_reads_the_digits_before_the_words() {
    assert_eq!(parse_news_total("<p>There are 312 news items in total</p>"), Some(312));
    assert_eq!(parse_news_total("<p>12a3 news items</p>"), Some(3));
    assert_eq!(parse_news_total("<p>no news items</p>"), None);
    assert_eq!(parse_news_total("nothing"), None);
}

const INDEX: &str = "<table><tr><th>Date</th></tr>\
<tr><td> 2024-06-01 </td><td><a href=\"/news/first/\" title=\"x\">  First post </a></td><td>who</td></tr>\
<tr><td>2024-05-01</td><td>no link</td></tr>\
<tr><td>2024-04-01</td><td><a href=\"/news/second/\">Second</a></td></tr></table>";

#[test]
fn index_rows_give_date_link_and_title() {
    let entries = parse_news_index(INDEX);
    assert_eq!(entries.len(), 2);
    assert_eq!(entries[0].date, "2024-06-01");
    assert_eq!(entries[0].link, "https://archlinux.org/news/first/");
    assert_eq!(entries[0].title, "First post");
    assert_eq!(entries[1].link, "https://archlinux.org/news/second/");
    assert_eq!(entries[1].title, "Second");
}

#[test]
fn index_entries_join_the_feed_once() {
    let feed = vec![item("A", "https://archlinux.org/news/first/", "d", "text")];
    let entries = vec![
        IndexEntry { date: "2024-06-01".into(), link: "https://archlinux.org/news/first/".into(), title: "First".into() },
        IndexEntry { date: "2024-04-01".into(), link: "https://archlinux.org/news/second/".into(), title: "Pacman 7 is out".into() },
        IndexEntry { date: "not a date".into(), link: "https://archlinux.org/news/second/".into(), title: "Again".into() },
    ];
    let merged = merge_index_entries(feed, &entries);
    assert_eq!(merged.len(), 2);
    assert_eq!(merged[0].title, "A");
    assert_eq!(merged[1].title, "Pacman 7 is out");
    assert_eq!(merged[1].pub_date, "Mon, 01 Apr 2024 00:00:00 +0000");
    assert_eq!(merged[1].description, "loading article content...");
    assert!(merged[1].is_critical);
}

#[test]
fn cache_keeps_loaded_descriptions() {
    let cached = vec![item("A", "l1", "d1", "full text"), item("B", "l2", "d2", "old")];
    let fetched = vec![
        item("A", "l1", "d1", "loading article content..."),
        item("B", "l2", "d2", "new"),
        item("C", "l3", "d3", "x"),
    ];
    let merged = merge_into_cache(cached, fetched);
    assert_eq!(merged.len(), 3);
    assert_eq!(merged[0].description, "full text");
    assert_eq!(merged[1].description, "new");
    assert_eq!(merged[2].link, "l3");
}

#[test]
fn cache_is_ordered_newest_first() {
    let items = vec![
        item("old", "a", "Mon, 01 Jan 2024 00:00:00 +0000", ""),
        item("bad", "b", "garbage", ""),
        item("new", "c", "Tue, 02 Jan 2024 00:00:00 +0000", ""),
    ];
    let sorted = sort_news_cache(items);
    let titles: Vec<&str> = sorted.iter().map(|n| n.title.as_str()).collect();
    // an unreadable date is compared as text: "garbage" sorts after both
    // dates' texts, so it comes first in this newest-first order
    assert_eq!(titles, vec!["bad", "new", "old"]);
}

#[test]
fn article_body_is_cleaned() {
    let html = "<div class=\"article-content\"><p>Hello &amp; <em>bye</em></p><br />x</div> rest";
    assert_eq!(extract_article_body(html), Some("Hello & bye\n\n\nx".to_string()));
    assert_eq!(extract_article_body("<div>no marker</div>"), None);
}

#[test]
fn latest_headline_reads_title_and_date() {
    let xml = "<rss><item><title>T</title><pubDate>D</pubDate></item></rss>";
    assert_eq!(latest_news_headline(xml), Some(("T".to_string(), "D".to_string(), String::new())));
    let with_desc = "<rss><description>feed</description><item><title>T</title>\
        <description>Manual intervention required</description><pubDate>D</pubDate></item></rss>";
    assert_eq!(
        latest_news_headline(with_desc),
        Some(("T".to_string(), "D".to_string(), "Manual intervention required".to_string()))
    );
    assert_eq!(latest_news_headline("<rss></rss>"), None);
    assert_eq!(latest_news_headline("<item></title>T<title><pubDate>D</pubDate>"), None);
}

#[test]
fn copy_finds_commands_behind_prompts() {
    let desc = "Run this:\n<code># pacman -Syu</code>\n$ systemctl daemon-reload\nnothing";
    let cmds = copyable_commands(desc);
    assert_eq!(cmds, vec!["pacman -Syu".to_string(), "systemctl daemon-reload".to_string()]);
    assert_eq!(copy_status(&cmds), "copied 2 commands to clipboard");
    assert_eq!(copy_status(&vec!["pacman -Syu".to_string()]), "copied \"pacman -Syu\" to clipboard");
    assert_eq!(copy_status(&vec![]), "no command found to copy");
}

#[test]
fn news_paging() {
    assert_eq!(news_item_index(2, 3), 28);
    assert_eq!(news_item_index(0, 3), 3);
    assert_eq!(news_page_count(1, 30), 25);
    assert_eq!(news_page_count(2, 30), 5);
    assert_eq!(news_page_count(3, 30), 0);
    assert_eq!(next_news_page(1, 51, 0, false), 2);
    assert_eq!(next_news_page(3, 51, 0, false), 3);
    assert_eq!(next_news_page(1, 51, 10, true), 1);
    assert_eq!(news_index_page_needed(3, 50, 80), Some(2));
    assert_eq!(news_index_page_needed(2, 50, 80), None);
    assert_eq!(news_row_down(Some(4), 5), 0);
    assert_eq!(news_row_down(Some(1), 5), 2);
    assert_eq!(news_row_up(Some(0), 5), 4);
    assert_eq!(news_row_up(None, 5), 0);
    assert!(needs_body("loading article content..."));
    assert!(needs_body(""));
    assert!(!needs_body("text"));
}

#[test]
fn news_search_and_selection() {
    let items = vec![item("Glibc update", "a", "", ""), item("Other", "b", "", "mentions GLIBC too"), item("Third", "c", "", "")];
    let found = filter_news(&items, "glibc");
    assert_eq!(found.len(), 2);
    assert_eq!(found[1].link, "b");
    assert_eq!(filter_news(&items, "").len(), 3);
    assert_eq!(news_selection_after_search(true, 4, Some(7), 2), (1, Some(0), true));
    assert_eq!(news_selection_after_search(true, 4, Some(7), 0), (1, None, true));
    assert_eq!(news_selection_after_search(false, 1, Some(7), 3), (1, Some(2), false));
    assert_eq!(news_selection_after_search(false, 1, Some(1), 3), (1, Some(1), false));
    assert_eq!(news_selection_after_search(false, 2, None, 3), (2, Some(0), false));
}

#[test]
fn article_lines_mark_code_and_commands() {
    let lines = article_lines("Intro\n<code>\nsome code\n</code>\n  pacman -S x\n<code>pacman -Syu</code>");
    assert_eq!(
        lines,
        vec![
            ArticleLine::Text { text: "Intro".to_string(), in_code: false },
            ArticleLine::Text { text: "".to_string(), in_code: true },
            ArticleLine::Text { text: "some code".to_string(), in_code: true },
            ArticleLine::Text { text: "".to_string(), in_code: false },
            ArticleLine::Command { cmd: "".to_string(), args: " pacman -S x".to_string() },
            ArticleLine::Command { cmd: "pacman".to_string(), args: "-Syu".to_string() },
        ]
    );
    let mut n = item("t", "l", "Mon, 01 Jul 2024 10:00:00 +0000", "Manual Intervention needed");
    assert!(!article_banner(&n));
    n.is_critical = true;
    assert!(article_banner(&n));
    assert_eq!(article_date("Mon, 01 Jul 2024 10:00:00 +0000"), "Jul 01, 2024");
    assert_eq!(article_date("2024-07-01"), "2024-07-01");
}

#[test]
fn news_report_prefers_fresh_then_cache() {
    match news_report(Some(vec![item("a", "", "", "")]), Some(vec![])) {
        NewsReport::Loaded(v, label) => {
            assert_eq!(v.len(), 1);
            assert_eq!(label, "just now");
        }
        NewsReport::Failed(_) => panic!("fresh headlines were dropped"),
    }
    match news_report(None, Some(vec![item("b", "", "", ""), item("c", "", "", "")])) {
        NewsReport::Loaded(v, label) => {
            assert_eq!(v.len(), 2);
            assert_eq!(label, "cached");
        }
        NewsReport::Failed(_) => panic!("cache was dropped"),
    }
    match news_report(None, None) {
        NewsReport::Failed(m) => assert_eq!(m, "failed to fetch arch news"),
        NewsReport::Loaded(..) => panic!("nothing to load"),
    }
}
