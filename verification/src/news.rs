//! The Arch Linux news: the RSS feed parsed into headlines, the markup of
//! their text cleaned, and the lines of an article that are commands.
use vstd::prelude::*;
use crate::text::{chars_of, string_of, find, find_from, find_exec, find_from_exec, matches_at,
    replace_all, replace_all_exec, starts_with, starts_with_exec, contains, contains_exec, trim,
    trim_exec, lowercase, to_lowercase, slice_range, seq_eq, lemma_find_from};
use crate::tui::{NewsItem, NEWS_PAGE_SIZE};
use crate::text::{is_digit, parse_unsigned, parse_unsigned_exec, lex_le, lex_le_exec, lemma_lex_order,
    str_eq};
use crate::conflicts::opt_view;
use crate::sort::{Comparison, consistent_on, reorders, sort_with, ties_kept_with};
use crate::text::{lines, lines_exec, join, join_exec};
use crate::pacman_log::strings_view;
use crate::commands::{decimal, decimal_string};

verus! {

/// A headline as plain text.
#[verifier::ext_equal]
pub struct NewsView {
    pub title: Seq<char>,
    pub link: Seq<char>,
    pub pub_date: Seq<char>,
    pub description: Seq<char>,
    pub is_critical: bool,
}

impl View for NewsItem {
    type V = NewsView;

    open spec fn view(&self) -> NewsView {
        NewsView {
            title: self.title@,
            link: self.link@,
            pub_date: self.pub_date@,
            description: self.description@,
            is_critical: self.is_critical,
        }
    }
}

/// The text between the first `tag` and the first `end_tag` of `item`, or
/// nothing when either is missing or the first `end_tag` comes before the
/// end of the first `tag`.
pub open spec fn extract(item: Seq<char>, tag: Seq<char>, end_tag: Seq<char>) -> Seq<char> {
    match (find(item, tag), find(item, end_tag)) {
        (Some(s), Some(e)) => if s + tag.len() <= e {
            item.subrange(s + tag.len(), e)
        } else {
            seq![]
        },
        _ => seq![],
    }
}

/// The HTML entities of the feed decoded, in the order `&gt;`, `&lt;`,
/// `&quot;`, `&amp;`, `&#39;`.
pub open spec fn decode_html(s: Seq<char>) -> Seq<char> {
    replace_all(
        replace_all(
            replace_all(replace_all(replace_all(s, "&gt;"@, ">"@), "&lt;"@, "<"@), "&quot;"@, "\""@),
            "&amp;"@,
            "&"@,
        ),
        "&#39;"@,
        "'"@,
    )
}

/// CDATA markers dropped, paragraphs and line breaks turned into new lines,
/// list items into bullets.
pub open spec fn flatten_markup(s: Seq<char>) -> Seq<char> {
    let a = replace_all(replace_all(s, "<![CDATA["@, ""@), "]]>"@, ""@);
    let b = replace_all(replace_all(a, "<p>"@, ""@), "</p>"@, "\n\n"@);
    let c = replace_all(replace_all(b, "<li>"@, "• "@), "</li>"@, "\n"@);
    let d = replace_all(replace_all(c, "<ul>"@, ""@), "</ul>"@, "\n"@);
    replace_all(replace_all(d, "<br>"@, "\n"@), "<br/>"@, "\n"@)
}

/// Number of `<` in `s`.
pub open spec fn count_lt(s: Seq<char>) -> nat
    decreases s.len(),
{
    if s.len() == 0 {
        0
    } else {
        count_lt(s.drop_last()) + if s.last() == '<' {
            1nat
        } else {
            0nat
        }
    }
}

pub proof fn lemma_count_lt_add(a: Seq<char>, b: Seq<char>)
    ensures
        count_lt(a + b) == count_lt(a) + count_lt(b),
    decreases b.len(),
{
    if b.len() == 0 {
        assert(a + b =~= a);
    } else {
        assert((a + b).drop_last() =~= a + b.drop_last());
        lemma_count_lt_add(a, b.drop_last());
    }
}

pub open spec fn tag_replacement(tag: Seq<char>) -> Seq<char> {
    if tag == "<code>"@ {
        "[[CODE_START]]"@
    } else if tag == "</code>"@ {
        "[[CODE_END]]"@
    } else {
        ""@
    }
}

/// Tags removed one by one, from the first `<` to the next `>`, until no
/// complete tag is left; `<code>` and `</code>` are kept as markers.
pub open spec fn strip_tags(d: Seq<char>) -> Seq<char>
    decreases count_lt(d),
{
    match find(d, "<"@) {
        None => d,
        Some(s) => match find_from(d, ">"@, s) {
            None => d,
            Some(e) => {
                proof {
                    lemma_strip_step(d, s, e);
                }
                strip_tags(d.take(s) + tag_replacement(d.subrange(s, e + 1)) + d.skip(e + 1))
            },
        },
    }
}

pub proof fn lemma_strip_step(d: Seq<char>, s: int, e: int)
    requires
        find(d, "<"@) == Some(s),
        find_from(d, ">"@, s) == Some(e),
    ensures
        0 <= s <= e < d.len(),
        count_lt(d.take(s) + tag_replacement(d.subrange(s, e + 1)) + d.skip(e + 1)) < count_lt(d),
{
    reveal_strlit("<");
    reveal_strlit(">");
    reveal_strlit("[[CODE_START]]");
    reveal_strlit("[[CODE_END]]");
    reveal_strlit("");
    lemma_find_from(d, "<"@, 0);
    lemma_find_from(d, ">"@, s);
    assert(d.subrange(s, s + 1)[0] == d[s]);
    assert("<"@[0] == '<');
    assert(d[s] == '<');
    let t = d.subrange(s, e + 1);
    let r = tag_replacement(t);
    assert(count_lt(r) == 0) by {
        if r == "[[CODE_START]]"@ {
            reveal_with_fuel(count_lt, 15);
        } else if r == "[[CODE_END]]"@ {
            reveal_with_fuel(count_lt, 13);
        }
    }
    assert(d =~= d.take(s) + t + d.skip(e + 1));
    lemma_count_lt_add(d.take(s), t);
    lemma_count_lt_add(d.take(s) + t, d.skip(e + 1));
    lemma_count_lt_add(d.take(s), r);
    lemma_count_lt_add(d.take(s) + r, d.skip(e + 1));
    assert(t =~= seq!['<'] + t.drop_first());
    lemma_count_lt_add(seq!['<'], t.drop_first());
    assert(count_lt(seq!['<']) == 1) by {
        assert(seq!['<'].drop_last() =~= Seq::<char>::empty());
        reveal_with_fuel(count_lt, 2);
    }
}

/// The code markers turned back into `<code>` and `</code>`.
pub open spec fn restore_code(d: Seq<char>) -> Seq<char> {
    replace_all(replace_all(d, "[[CODE_START]]"@, "<code>"@), "[[CODE_END]]"@, "</code>"@)
}

/// The words that mark a headline as asking for care before upgrading.
pub open spec fn critical_words() -> Seq<Seq<char>> {
    seq![
        "manual intervention"@,
        "requires intervention"@,
        "breaking change"@,
        "filesystem"@,
        "pacman"@,
        "keyring"@,
        "glibc"@,
    ]
}

/// The title or the description, in lower case, holds a critical word.
pub open spec fn mentions_critical(title: Seq<char>, desc: Seq<char>) -> bool {
    exists|k: int|
        0 <= k < critical_words().len() && (contains(lowercase(title), #[trigger] critical_words()[k])
            || contains(lowercase(desc), critical_words()[k]))
}

/// The headline that one `<item>` of the feed holds.
pub open spec fn item_view(item: Seq<char>) -> NewsView {
    let title = decode_html(extract(item, "<title>"@, "</title>"@));
    let desc = restore_code(
        strip_tags(flatten_markup(decode_html(extract(item, "<description>"@, "</description>"@)))),
    );
    NewsView {
        title: title,
        link: extract(item, "<link>"@, "</link>"@),
        pub_date: extract(item, "<pubDate>"@, "</pubDate>"@),
        description: desc,
        is_critical: mentions_critical(title, desc),
    }
}

/// A text, in lower case, names one of the things that call for care
/// before an upgrade.
pub open spec fn calls_for_care(text: Seq<char>) -> bool {
    let l = lowercase(text);
    ||| contains(l, "manual intervention"@)
    ||| contains(l, "requires intervention"@)
    ||| contains(l, "breaking change"@)
    ||| contains(l, "filesystem"@)
    ||| contains(l, "pacman"@)
    ||| contains(l, "keyring"@)
    ||| contains(l, "glibc"@)
}

proof fn lemma_care_words(text: Seq<char>)
    ensures
        calls_for_care(text) <==> exists|k: int|
            0 <= k < critical_words().len() && contains(lowercase(text), #[trigger] critical_words()[k]),
{
    let l = lowercase(text);
    let w = critical_words();
    assert(w[0] == "manual intervention"@);
    assert(w[1] == "requires intervention"@);
    assert(w[2] == "breaking change"@);
    assert(w[3] == "filesystem"@);
    assert(w[4] == "pacman"@);
    assert(w[5] == "keyring"@);
    assert(w[6] == "glibc"@);
    if calls_for_care(text) {
        if contains(l, w[0]) {
        } else if contains(l, w[1]) {
        } else if contains(l, w[2]) {
        } else if contains(l, w[3]) {
        } else if contains(l, w[4]) {
        } else if contains(l, w[5]) {
        } else {
            assert(contains(l, w[6]));
        }
    }
}

/// A headline of the feed is critical exactly when its title or its
/// description, in lower case, mentions manual intervention, required
/// intervention, a breaking change, the filesystem, pacman, the keyring or
/// glibc; a headline of the news index is critical exactly when its title
/// does.
pub proof fn law_critical_headlines(item: Seq<char>, e: (Seq<char>, Seq<char>, Seq<char>))
    ensures
        item_view(item).is_critical <==> (calls_for_care(item_view(item).title) || calls_for_care(
            item_view(item).description,
        )),
        contains(lowercase(item_view(item).title), "manual intervention"@) || contains(
            lowercase(item_view(item).description),
            "manual intervention"@,
        ) ==> item_view(item).is_critical,
        contains(lowercase(e.2), "manual intervention"@) ==> index_item(e).is_critical,
        contains(lowercase(item_view(item).title), "requires intervention"@) || contains(
            lowercase(item_view(item).description),
            "requires intervention"@,
        ) ==> item_view(item).is_critical,
        contains(lowercase(e.2), "requires intervention"@) ==> index_item(e).is_critical,
        contains(lowercase(item_view(item).title), "breaking change"@) || contains(
            lowercase(item_view(item).description),
            "breaking change"@,
        ) ==> item_view(item).is_critical,
        contains(lowercase(e.2), "breaking change"@) ==> index_item(e).is_critical,
        contains(lowercase(item_view(item).title), "filesystem"@) || contains(
            lowercase(item_view(item).description),
            "filesystem"@,
        ) ==> item_view(item).is_critical,
        contains(lowercase(e.2), "filesystem"@) ==> index_item(e).is_critical,
        contains(lowercase(item_view(item).title), "pacman"@) || contains(
            lowercase(item_view(item).description),
            "pacman"@,
        ) ==> item_view(item).is_critical,
        contains(lowercase(e.2), "pacman"@) ==> index_item(e).is_critical,
        contains(lowercase(item_view(item).title), "keyring"@) || contains(
            lowercase(item_view(item).description),
            "keyring"@,
        ) ==> item_view(item).is_critical,
        contains(lowercase(e.2), "keyring"@) ==> index_item(e).is_critical,
        contains(lowercase(item_view(item).title), "glibc"@) || contains(
            lowercase(item_view(item).description),
            "glibc"@,
        ) ==> item_view(item).is_critical,
        contains(lowercase(e.2), "glibc"@) ==> index_item(e).is_critical,
        index_item(e).is_critical <==> calls_for_care(e.2),
{
    let v = item_view(item);
    lemma_care_words(v.title);
    lemma_care_words(v.description);
    lemma_care_words(e.2);
    if calls_for_care(v.title) || calls_for_care(v.description) {
        let kt = choose|k: int|
            0 <= k < critical_words().len() && contains(lowercase(v.title), #[trigger] critical_words()[k]);
        let kd = choose|k: int|
            0 <= k < critical_words().len() && contains(lowercase(v.description), #[trigger] critical_words()[k]);
        if calls_for_care(v.title) {
            assert(0 <= kt < critical_words().len() && (contains(lowercase(v.title), critical_words()[kt])
                || contains(lowercase(v.description), critical_words()[kt])));
        } else {
            assert(0 <= kd < critical_words().len() && (contains(lowercase(v.title), critical_words()[kd])
                || contains(lowercase(v.description), critical_words()[kd])));
        }
    }
    if v.is_critical {
        let k = choose|k: int|
            0 <= k < critical_words().len() && (contains(lowercase(v.title), #[trigger] critical_words()[k])
                || contains(lowercase(v.description), critical_words()[k]));
        if contains(lowercase(v.title), critical_words()[k]) {
            assert(calls_for_care(v.title));
        } else {
            assert(calls_for_care(v.description));
        }
    }
}

/// The `<item>` elements of the feed from index `from` on: the text from
/// each `<item>` to the next `</item>`.
pub open spec fn item_spans(xml: Seq<char>, from: int) -> Seq<Seq<char>>
    decreases xml.len() - from,
{
    if from < 0 {
        seq![]
    } else {
        match find_from(xml, "<item>"@, from) {
            None => seq![],
            Some(a) => match find_from(xml, "</item>"@, a) {
                None => seq![],
                Some(e) => {
                    proof {
                        lemma_item_advance(xml, from, a, e);
                    }
                    seq![xml.subrange(a, e)] + item_spans(xml, e)
                },
            },
        }
    }
}

pub proof fn lemma_item_advance(xml: Seq<char>, from: int, a: int, e: int)
    requires
        0 <= from,
        find_from(xml, "<item>"@, from) == Some(a),
        find_from(xml, "</item>"@, a) == Some(e),
    ensures
        from <= a < e <= xml.len(),
{
    reveal_strlit("<item>");
    reveal_strlit("</item>");
    lemma_find_from(xml, "<item>"@, from);
    lemma_find_from(xml, "</item>"@, a);
    if e == a {
        assert(xml.subrange(a, a + 6)[1] == 'i');
        assert(xml.subrange(e, e + 7)[1] == '/');
    }
}

/// The headlines of the items `spans`: those with a non-empty title.
pub open spec fn headlines(spans: Seq<Seq<char>>) -> Seq<NewsView>
    decreases spans.len(),
{
    if spans.len() == 0 {
        seq![]
    } else {
        let rest = headlines(spans.drop_last());
        let v = item_view(spans.last());
        if v.title.len() > 0 {
            rest.push(v)
        } else {
            rest
        }
    }
}

// ---------------------------------------------------------------- exec ----

fn extract_exec(item: &[char], tag: &str, end_tag: &str) -> (r: Vec<char>)
    ensures
        r@ == extract(item@, tag@, end_tag@),
{
    let t = chars_of(tag);
    let et = chars_of(end_tag);
    match (find_exec(item, t.as_slice()), find_exec(item, et.as_slice())) {
        (Some(s), Some(e)) => if s <= e && t.len() <= e - s {
            slice_range(item, s + t.len(), e)
        } else {
            Vec::new()
        },
        _ => Vec::new(),
    }
}

fn replace_str(s: Vec<char>, f: &str, t: &str) -> (r: Vec<char>)
    ensures
        r@ == replace_all(s@, f@, t@),
{
    let fc = chars_of(f);
    let tc = chars_of(t);
    replace_all_exec(s.as_slice(), fc.as_slice(), tc.as_slice())
}

fn decode_html_exec(s: Vec<char>) -> (r: Vec<char>)
    ensures
        r@ == decode_html(s@),
{
    let a = replace_str(s, "&gt;", ">");
    let b = replace_str(a, "&lt;", "<");
    let c = replace_str(b, "&quot;", "\"");
    let d = replace_str(c, "&amp;", "&");
    replace_str(d, "&#39;", "'")
}

fn flatten_markup_exec(s: Vec<char>) -> (r: Vec<char>)
    ensures
        r@ == flatten_markup(s@),
{
    let s = replace_str(s, "<![CDATA[", "");
    let s = replace_str(s, "]]>", "");
    let s = replace_str(s, "<p>", "");
    let s = replace_str(s, "</p>", "\n\n");
    let s = replace_str(s, "<li>", "• ");
    let s = replace_str(s, "</li>", "\n");
    let s = replace_str(s, "<ul>", "");
    let s = replace_str(s, "</ul>", "\n");
    let s = replace_str(s, "<br>", "\n");
    replace_str(s, "<br/>", "\n")
}

fn strip_tags_exec(d: Vec<char>) -> (r: Vec<char>)
    ensures
        r@ == strip_tags(d@),
{
    let lt = chars_of("<");
    let gt = chars_of(">");
    let code = chars_of("<code>");
    let code_end = chars_of("</code>");
    let mut cur = d;
    loop
        invariant
            lt@ == "<"@,
            gt@ == ">"@,
            code@ == "<code>"@,
            code_end@ == "</code>"@,
            strip_tags(cur@) == strip_tags(d@),
        decreases count_lt(cur@),
    {
        let s = match find_exec(cur.as_slice(), lt.as_slice()) {
            Some(s) => s,
            None => {
                return cur;
            },
        };
        let e = match find_from_exec(cur.as_slice(), gt.as_slice(), s) {
            Some(e) => e,
            None => {
                return cur;
            },
        };
        proof {
            lemma_strip_step(cur@, s as int, e as int);
        }
        let tag = slice_range(cur.as_slice(), s, e + 1);
        let repl: &str = if seq_eq(tag.as_slice(), code.as_slice()) {
            "[[CODE_START]]"
        } else if seq_eq(tag.as_slice(), code_end.as_slice()) {
            "[[CODE_END]]"
        } else {
            ""
        };
        assert(repl@ == tag_replacement(tag@));
        let mut next = slice_range(cur.as_slice(), 0, s);
        let rc = chars_of(repl);
        let mut k: usize = 0;
        let ghost n0 = next@;
        while k < rc.len()
            invariant
                k <= rc.len(),
                next@ == n0 + rc@.take(k as int),
            decreases rc.len() - k,
        {
            next.push(rc[k]);
            assert(rc@.take(k + 1) =~= rc@.take(k as int).push(rc@[k as int]));
            k = k + 1;
        }
        let tail = slice_range(cur.as_slice(), e + 1, cur.len());
        let ghost n1 = next@;
        let mut j: usize = 0;
        while j < tail.len()
            invariant
                j <= tail.len(),
                next@ == n1 + tail@.take(j as int),
            decreases tail.len() - j,
        {
            next.push(tail[j]);
            assert(tail@.take(j + 1) =~= tail@.take(j as int).push(tail@[j as int]));
            j = j + 1;
        }
        assert(rc@.take(k as int) =~= rc@);
        assert(tail@.take(j as int) =~= tail@);
        assert(next@ =~= cur@.take(s as int) + tag_replacement(cur@.subrange(s as int, e + 1))
            + cur@.skip(e + 1));
        cur = next;
    }
}

fn critical_exec(title: &[char], desc: &[char]) -> (r: bool)
    ensures
        r == mentions_critical(title@, desc@),
{
    let lt = to_lowercase(title);
    let ld = to_lowercase(desc);
    let words: [&str; 7] = [
        "manual intervention",
        "requires intervention",
        "breaking change",
        "filesystem",
        "pacman",
        "keyring",
        "glibc",
    ];
    let ghost cw = critical_words();
    assert(words@.map_values(|w: &str| w@) =~= cw);
    let mut k: usize = 0;
    while k < 7
        invariant
            k <= 7,
            words@.map_values(|w: &str| w@) == cw,
            cw == critical_words(),
            lt@ == lowercase(title@),
            ld@ == lowercase(desc@),
            forall|m: int|
                0 <= m < k ==> !contains(lt@, #[trigger] cw[m]) && !contains(ld@, cw[m]),
        decreases 7 - k,
    {
        let w = chars_of(words[k]);
        assert(w@ == cw[k as int]);
        if contains_exec(lt.as_slice(), w.as_slice()) || contains_exec(ld.as_slice(), w.as_slice()) {
            return true;
        }
        k = k + 1;
    }
    false
}

fn item_exec(item: &[char]) -> (r: NewsItem)
    ensures
        r@ == item_view(item@),
{
    let title = decode_html_exec(extract_exec(item, "<title>", "</title>"));
    let link = extract_exec(item, "<link>", "</link>");
    let pub_date = extract_exec(item, "<pubDate>", "</pubDate>");
    let raw = extract_exec(item, "<description>", "</description>");
    let stripped = strip_tags_exec(flatten_markup_exec(decode_html_exec(raw)));
    let desc = replace_str(replace_str(stripped, "[[CODE_START]]", "<code>"), "[[CODE_END]]", "</code>");
    let crit = critical_exec(title.as_slice(), desc.as_slice());
    NewsItem {
        title: string_of(title.as_slice()),
        link: string_of(link.as_slice()),
        pub_date: string_of(pub_date.as_slice()),
        description: string_of(desc.as_slice()),
        is_critical: crit,
    }
}

/// The headlines of the Arch Linux news feed `xml`, in the order of its
/// `<item>` elements; items without a title are skipped.
pub fn parse_arch_xml(xml: &str) -> (r: Vec<NewsItem>)
    ensures
        r@.map_values(|n: NewsItem| n@) == headlines(item_spans(xml@, 0)),
{
    let cs = chars_of(xml);
    let open = chars_of("<item>");
    let close = chars_of("</item>");
    let mut items: Vec<NewsItem> = Vec::new();
    let mut search: usize = 0;
    let ghost all = item_spans(xml@, 0);
    let ghost mut k: int = 0;
    assert(all.take(0) =~= Seq::<Seq<char>>::empty());
    assert(all =~= all.take(0) + item_spans(xml@, 0));
    loop
        invariant
            cs@ == xml@,
            open@ == "<item>"@,
            close@ == "</item>"@,
            all == item_spans(xml@, 0),
            0 <= k <= all.len(),
            all == all.take(k) + item_spans(xml@, search as int),
            items@.map_values(|n: NewsItem| n@) == headlines(all.take(k)),
        decreases cs.len() - search,
    {
        let a = match find_from_exec(cs.as_slice(), open.as_slice(), search) {
            Some(a) => a,
            None => {
                assert(item_spans(xml@, search as int) =~= Seq::<Seq<char>>::empty());
                assert(all.take(k) =~= all);
                return items;
            },
        };
        let e = match find_from_exec(cs.as_slice(), close.as_slice(), a) {
            Some(e) => e,
            None => {
                assert(item_spans(xml@, search as int) =~= Seq::<Seq<char>>::empty());
                assert(all.take(k) =~= all);
                return items;
            },
        };
        proof {
            lemma_item_advance(xml@, search as int, a as int, e as int);
        }
        let span = slice_range(cs.as_slice(), a, e);
        proof {
            assert(item_spans(xml@, search as int) == seq![span@] + item_spans(xml@, e as int));
            assert(all[k] == span@) by {
                assert((all.take(k) + item_spans(xml@, search as int))[k] == span@);
            }
            assert(all.take(k + 1) =~= all.take(k).push(span@));
            assert(all.take(k + 1).drop_last() =~= all.take(k));
            assert(all =~= all.take(k + 1) + item_spans(xml@, e as int));
        }
        let it = item_exec(span.as_slice());
        if !it.title.as_str().is_empty() {
            proof {
                assert(it@.title.len() > 0) by {
                    assert(it.title@.len() > 0);
                }
            }
            let ghost before = items@;
            items.push(it);
            assert(items@.map_values(|n: NewsItem| n@) =~= before.map_values(|n: NewsItem| n@).push(
                it@,
            ));
        } else {
            proof {
                assert(it@.title.len() == 0) by {
                    assert(it.title@.len() == 0);
                }
            }
        }
        proof {
            k = k + 1;
        }
        search = e;
    }
}

/// A line of an article that is a command to type: trimmed, it starts with
/// `pacman `, `systemctl `, `mkinitcpio `, `grub-install ` or `chown `.
pub open spec fn command_line(line: Seq<char>) -> bool {
    let l = trim(line);
    ||| starts_with(l, "pacman "@)
    ||| starts_with(l, "systemctl "@)
    ||| starts_with(l, "mkinitcpio "@)
    ||| starts_with(l, "grub-install "@)
    ||| starts_with(l, "chown "@)
}

/// Whether a line of an article is a command.
pub fn is_command(line: &str) -> (r: bool)
    ensures
        r == command_line(line@),
{
    let cs = chars_of(line);
    let l = trim_exec(cs.as_slice());
    let p1 = chars_of("pacman ");
    let p2 = chars_of("systemctl ");
    let p3 = chars_of("mkinitcpio ");
    let p4 = chars_of("grub-install ");
    let p5 = chars_of("chown ");
    starts_with_exec(l.as_slice(), p1.as_slice()) || starts_with_exec(l.as_slice(), p2.as_slice())
        || starts_with_exec(l.as_slice(), p3.as_slice()) || starts_with_exec(
        l.as_slice(),
        p4.as_slice(),
    ) || starts_with_exec(l.as_slice(), p5.as_slice())
}


/// What the news screen is told after a fetch: the headlines to show with
/// the label of their age, or the failure.
pub enum NewsReport {
    Loaded(Vec<NewsItem>, String),
    Failed(String),
}

/// The report of a fetch: the fresh headlines as "just now" when the
/// fetch gave some; else the cached ones as "cached" when the cache could
/// be read; else the failure.
pub fn news_report(fresh: Option<Vec<NewsItem>>, cached: Option<Vec<NewsItem>>) -> (r: NewsReport)
    ensures
        match r {
            NewsReport::Loaded(v, label) => match fresh {
                Some(f) => v@ == f@ && label@ == "just now"@,
                None => cached matches Some(c) && v@ == c@ && label@ == "cached"@,
            },
            NewsReport::Failed(m) => fresh is None && cached is None && m@
                == "failed to fetch arch news"@,
        },
{
    match fresh {
        Some(f) => NewsReport::Loaded(f, "just now".to_string()),
        None => match cached {
            Some(c) => NewsReport::Loaded(c, "cached".to_string()),
            None => NewsReport::Failed("failed to fetch arch news".to_string()),
        },
    }
}

// ------------------------------------------------------- news search ----

/// A headline passes the news search: an empty query, or its lower-cased
/// title or description contains the lower-cased query `q`.
pub open spec fn news_admits(q: Seq<char>, n: NewsView) -> bool {
    q.len() == 0 || contains(lowercase(n.title), q) || contains(lowercase(n.description), q)
}

/// A copy of a headline.
pub fn clone_news(n: &NewsItem) -> (r: NewsItem)
    ensures
        r == *n,
{
    NewsItem {
        title: n.title.clone(),
        link: n.link.clone(),
        pub_date: n.pub_date.clone(),
        description: n.description.clone(),
        is_critical: n.is_critical,
    }
}

/// The headlines that the search `query` leaves, in their order.
pub fn filter_news(items: &Vec<NewsItem>, query: &str) -> (r: Vec<NewsItem>)
    ensures
        r@ == items@.filter(|n: NewsItem| news_admits(lowercase(query@), n@)),
{
    let q = to_lowercase(chars_of(query).as_slice());
    let mut out: Vec<NewsItem> = Vec::new();
    let mut k: usize = 0;
    assert(items@.take(0).filter(|n: NewsItem| news_admits(q@, n@)) =~= Seq::<NewsItem>::empty());
    while k < items.len()
        invariant
            k <= items.len(),
            q@ == lowercase(query@),
            out@ == items@.take(k as int).filter(|n: NewsItem| news_admits(q@, n@)),
        decreases items.len() - k,
    {
        let n = &items[k];
        assert(items@.take(k + 1).drop_last() =~= items@.take(k as int));
        let admits = q.len() == 0 || contains_exec(
            to_lowercase(chars_of(n.title.as_str()).as_slice()).as_slice(),
            q.as_slice(),
        ) || contains_exec(
            to_lowercase(chars_of(n.description.as_str()).as_slice()).as_slice(),
            q.as_slice(),
        );
        assert(admits == news_admits(q@, n@));
        proof {
            reveal(Seq::filter);
            assert(items@.take(k + 1).last() == *n);
        }
        if admits {
            out.push(clone_news(n));
        }
        k = k + 1;
    }
    assert(items@.take(k as int) =~= items@);
    out
}

/// How many headlines page `page` (counted from 1) of a list of `len`
/// shows.
pub open spec fn page_count(page: nat, len: nat) -> nat {
    let start = if page == 0 {
        0
    } else {
        (page - 1) * NEWS_PAGE_SIZE as nat
    };
    let end = if start + NEWS_PAGE_SIZE <= len {
        start + NEWS_PAGE_SIZE
    } else {
        len as int
    };
    if end >= start {
        (end - start) as nat
    } else {
        0
    }
}

/// The page, the selected headline and whether to scroll back to the top
/// after the news search changed: a new search goes back to the first
/// headline of the first page; otherwise the selection is kept inside the
/// current page.
pub open spec fn news_selection(reset_page: bool, page: nat, selected: Option<usize>, len: nat) -> (
    nat,
    Option<int>,
    bool,
) {
    if reset_page {
        (1, if len == 0 {
            None
        } else {
            Some(0)
        }, true)
    } else {
        match selected {
            Some(idx) => {
                let shown = page_count(page, len);
                if idx >= shown {
                    (page, if shown > 0 {
                        Some(shown - 1)
                    } else {
                        None
                    }, false)
                } else {
                    (page, Some(idx as int), false)
                }
            },
            None => (page, if len == 0 {
                None
            } else {
                Some(0)
            }, false),
        }
    }
}

pub fn news_selection_after_search(
    reset_page: bool,
    page: usize,
    selected: Option<usize>,
    len: usize,
) -> (r: (usize, Option<usize>, bool))
    requires
        page * NEWS_PAGE_SIZE <= usize::MAX,
    ensures
        r.0 == news_selection(reset_page, page as nat, selected, len as nat).0,
        r.2 == news_selection(reset_page, page as nat, selected, len as nat).2,
        match r.1 {
            Some(i) => news_selection(reset_page, page as nat, selected, len as nat).1 == Some(
                i as int,
            ),
            None => news_selection(reset_page, page as nat, selected, len as nat).1 is None,
        },
{
    if reset_page {
        return (1, if len == 0 {
            None
        } else {
            Some(0)
        }, true);
    }
    match selected {
        Some(idx) => {
            let start = if page == 0 {
                0
            } else {
                (page - 1) * NEWS_PAGE_SIZE
            };
            let end = if start + NEWS_PAGE_SIZE <= len {
                start + NEWS_PAGE_SIZE
            } else {
                len
            };
            let shown = if end >= start {
                end - start
            } else {
                0
            };
            if idx >= shown {
                (page, if shown > 0 {
                    Some(shown - 1)
                } else {
                    None
                }, false)
            } else {
                (page, Some(idx), false)
            }
        },
        None => (page, if len == 0 {
            None
        } else {
            Some(0)
        }, false),
    }
}

// ------------------------------------------------------- news index ----

/// The longest run of decimal digits that ends `s`.
pub open spec fn trailing_digits(s: Seq<char>) -> Seq<char>
    decreases s.len(),
{
    if s.len() > 0 && is_digit(s.last()) {
        trailing_digits(s.drop_last()).push(s.last())
    } else {
        seq![]
    }
}

/// The number of headlines that the news index announces: the digits just
/// before the first " news items".
pub open spec fn news_total(html: Seq<char>) -> Option<nat> {
    match find(html, " news items"@) {
        None => None,
        Some(i) => parse_unsigned(trailing_digits(html.take(i)), usize::MAX as nat),
    }
}

pub fn parse_news_total(html: &str) -> (r: Option<usize>)
    ensures
        match r {
            Some(n) => news_total(html@) == Some(n as nat),
            None => news_total(html@) is None,
        },
{
    let cs = chars_of(html);
    let pat = chars_of(" news items");
    let i = match find_exec(cs.as_slice(), pat.as_slice()) {
        Some(i) => i,
        None => return None,
    };
    let mut lo = i;
    while lo > 0 && '0' <= cs[lo - 1] && cs[lo - 1] <= '9'
        invariant
            lo <= i <= cs.len(),
            trailing_digits(cs@.take(i as int)) == trailing_digits(cs@.take(lo as int)) + cs@.subrange(
                lo as int,
                i as int,
            ),
        decreases lo,
    {
        assert(cs@.take(lo as int).drop_last() =~= cs@.take(lo - 1));
        assert(cs@.take(lo as int).last() == cs@[lo - 1]);
        assert(cs@.subrange(lo - 1, i as int) =~= seq![cs@[lo - 1]] + cs@.subrange(lo as int, i as int));
        assert(trailing_digits(cs@.take(lo - 1)).push(cs@[lo - 1]) + cs@.subrange(lo as int, i as int)
            =~= trailing_digits(cs@.take(lo - 1)) + cs@.subrange(lo - 1, i as int));
        lo = lo - 1;
    }
    assert(trailing_digits(cs@.take(lo as int)) =~= Seq::<char>::empty());
    assert(trailing_digits(cs@.take(i as int)) =~= cs@.subrange(lo as int, i as int));
    let digits = slice_range(cs.as_slice(), lo, i);
    match parse_unsigned_exec(digits.as_slice(), usize::MAX as u64) {
        Some(n) => Some(n as usize),
        None => None,
    }
}

/// The pieces between each `open` and the next `close` of `s`, read from
/// left to right; an `open` without a `close` after it is skipped.
pub open spec fn pieces(s: Seq<char>, open: Seq<char>, close: Seq<char>) -> Seq<Seq<char>>
    decreases s.len(),
{
    if open.len() == 0 {
        seq![]
    } else {
        match find(s, open) {
            None => seq![],
            Some(a) => {
                proof {
                    lemma_find_from(s, open, 0);
                }
                let rest = s.skip(a + open.len());
                match find(rest, close) {
                    Some(b) => {
                        proof {
                            lemma_find_from(rest, close, 0);
                        }
                        seq![rest.take(b)] + pieces(rest.skip(b + close.len()), open, close)
                    },
                    None => pieces(rest, open, close),
                }
            },
        }
    }
}

/// A row of the news index: its date, the article's address and its title.
#[derive(Debug)]
pub struct IndexEntry {
    pub date: String,
    pub link: String,
    pub title: String,
}

/// The entry that one table row of the news index holds, if it has two
/// cells and the second links to an article.
pub open spec fn row_entry(row: Seq<char>) -> Option<(Seq<char>, Seq<char>, Seq<char>)> {
    let cells = pieces(row, "<td>"@, "</td>"@);
    if cells.len() < 2 {
        None
    } else {
        let td1 = cells[1];
        match find(td1, "href=\""@) {
            None => None,
            Some(h) => {
                let rest = td1.skip(h + 6);
                match find(rest, "\""@) {
                    None => None,
                    Some(q) => match find(rest, ">"@) {
                        None => None,
                        Some(t) => {
                            let tail = rest.skip(t + 1);
                            match find(tail, "</a>"@) {
                                None => None,
                                Some(e) => Some(
                                    (
                                        trim(cells[0]),
                                        "https://archlinux.org"@ + rest.take(q),
                                        trim(tail.take(e)),
                                    ),
                                ),
                            }
                        },
                    },
                }
            },
        }
    }
}

/// The entries of the rows of the news index, in order.
pub open spec fn index_entries(rows: Seq<Seq<char>>) -> Seq<(Seq<char>, Seq<char>, Seq<char>)>
    decreases rows.len(),
{
    if rows.len() == 0 {
        seq![]
    } else {
        let rest = index_entries(rows.drop_last());
        match row_entry(rows.last()) {
            Some(e) => rest.push(e),
            None => rest,
        }
    }
}

pub open spec fn entry_view(e: IndexEntry) -> (Seq<char>, Seq<char>, Seq<char>) {
    (e.date@, e.link@, e.title@)
}

fn pieces_exec(s: &[char], open: &str, close: &str) -> (r: Vec<Vec<char>>)
    requires
        open@.len() > 0,
    ensures
        r@.len() == pieces(s@, open@, close@).len(),
        forall|i: int| 0 <= i < r@.len() ==> (#[trigger] r@[i])@ == pieces(s@, open@, close@)[i],
{
    let oc = chars_of(open);
    let cc = chars_of(close);
    let mut cur: Vec<char> = slice_range(s, 0, s.len());
    let mut out: Vec<Vec<char>> = Vec::new();
    let ghost mut got: Seq<Seq<char>> = Seq::empty();
    assert(cur@ =~= s@);
    loop
        invariant
            oc@ == open@,
            cc@ == close@,
            open@.len() > 0,
            out@.len() == got.len(),
            forall|i: int| 0 <= i < out@.len() ==> (#[trigger] out@[i])@ == got[i],
            pieces(s@, open@, close@) == got + pieces(cur@, open@, close@),
        decreases cur.len(),
    {
        let a = match find_exec(cur.as_slice(), oc.as_slice()) {
            Some(a) => a,
            None => {
                assert(got + pieces(cur@, open@, close@) =~= got);
                return out;
            },
        };
        let rest = slice_range(cur.as_slice(), a + oc.len(), cur.len());
        assert(rest@ =~= cur@.skip(a + open@.len()));
        match find_exec(rest.as_slice(), cc.as_slice()) {
            Some(b) => {
                let piece = slice_range(rest.as_slice(), 0, b);
                let next = slice_range(rest.as_slice(), b + cc.len(), rest.len());
                assert(piece@ =~= rest@.take(b as int));
                assert(next@ =~= rest@.skip(b + close@.len()));
                proof {
                    assert(pieces(cur@, open@, close@) == seq![piece@] + pieces(next@, open@, close@));
                    assert(got + pieces(cur@, open@, close@) =~= got.push(piece@) + pieces(
                        next@,
                        open@,
                        close@,
                    ));
                    got = got.push(piece@);
                }
                out.push(piece);
                cur = next;
            },
            None => {
                cur = rest;
            },
        }
    }
}

fn find_str(s: &[char], p: &str) -> (r: Option<usize>)
    requires
        p@.len() > 0,
    ensures
        match r {
            Some(i) => find(s@, p@) == Some(i as int) && i + p@.len() <= s.len(),
            None => find(s@, p@) is None,
        },
{
    let pc = chars_of(p);
    find_exec(s, pc.as_slice())
}

fn row_entry_exec(row: &[char]) -> (r: Option<IndexEntry>)
    ensures
        match r {
            Some(e) => row_entry(row@) == Some(entry_view(e)),
            None => row_entry(row@) is None,
        },
{
    proof {
        reveal_strlit("<td>");
        reveal_strlit("href=\"");
        reveal_strlit("\"");
        reveal_strlit(">");
        reveal_strlit("</a>");
    }
    let cells = pieces_exec(row, "<td>", "</td>");
    if cells.len() < 2 {
        return None;
    }
    let td1 = &cells[1];
    let h = match find_str(td1.as_slice(), "href=\"") {
        Some(h) => h,
        None => return None,
    };
    let rest = slice_range(td1.as_slice(), h + 6, td1.len());
    assert(rest@ =~= td1@.skip(h + 6));
    let q = match find_str(rest.as_slice(), "\"") {
        Some(q) => q,
        None => return None,
    };
    let t = match find_str(rest.as_slice(), ">") {
        Some(t) => t,
        None => return None,
    };
    let tail = slice_range(rest.as_slice(), t + 1, rest.len());
    assert(tail@ =~= rest@.skip(t + 1));
    let e = match find_str(tail.as_slice(), "</a>") {
        Some(e) => e,
        None => return None,
    };
    let date = trim_exec(cells[0].as_slice());
    let path = slice_range(rest.as_slice(), 0, q);
    let mut link = chars_of("https://archlinux.org");
    let ghost l0 = link@;
    let mut k: usize = 0;
    while k < path.len()
        invariant
            k <= path.len(),
            link@ == l0 + path@.take(k as int),
        decreases path.len() - k,
    {
        link.push(path[k]);
        assert(path@.take(k + 1) =~= path@.take(k as int).push(path@[k as int]));
        k = k + 1;
    }
    assert(path@.take(k as int) =~= path@);
    assert(path@ =~= rest@.take(q as int));
    let inner = slice_range(tail.as_slice(), 0, e);
    assert(inner@ =~= tail@.take(e as int));
    let title = trim_exec(inner.as_slice());
    Some(
        IndexEntry {
            date: string_of(date.as_slice()),
            link: string_of(link.as_slice()),
            title: string_of(title.as_slice()),
        },
    )
}

/// The entries of the news index page `html`: for each table row with two
/// cells whose second links to an article, its date, its address and its
/// title, in the order of the page.
pub fn parse_news_index(html: &str) -> (r: Vec<IndexEntry>)
    ensures
        r@.map_values(|e: IndexEntry| entry_view(e)) == index_entries(
            pieces(html@, "<tr>"@, "</tr>"@),
        ),
{
    proof {
        reveal_strlit("<tr>");
    }
    let cs = chars_of(html);
    let rows = pieces_exec(cs.as_slice(), "<tr>", "</tr>");
    let ghost all = pieces(html@, "<tr>"@, "</tr>"@);
    let mut out: Vec<IndexEntry> = Vec::new();
    let mut k: usize = 0;
    let ghost rv = rows@.map_values(|r: Vec<char>| r@);
    assert(rv =~= all);
    assert(out@.map_values(|e: IndexEntry| entry_view(e)) =~= index_entries(all.take(0)));
    while k < rows.len()
        invariant
            k <= rows.len(),
            rows@.len() == all.len(),
            forall|i: int| 0 <= i < rows@.len() ==> (#[trigger] rows@[i])@ == all[i],
            out@.map_values(|e: IndexEntry| entry_view(e)) == index_entries(all.take(k as int)),
        decreases rows.len() - k,
    {
        assert(all.take(k + 1).drop_last() =~= all.take(k as int));
        assert(all.take(k + 1).last() == rows@[k as int]@);
        let ghost before = out@;
        match row_entry_exec(rows[k].as_slice()) {
            Some(e) => {
                out.push(e);
                assert(out@.map_values(|e: IndexEntry| entry_view(e)) =~= before.map_values(
                    |e: IndexEntry| entry_view(e),
                ).push(entry_view(e)));
            },
            None => {},
        }
        k = k + 1;
    }
    assert(all.take(k as int) =~= all);
    out
}


// ------------------------------------------------- merging the lists ----

/// The description of a headline whose article is not loaded yet.
pub open spec fn loading_text() -> Seq<char> {
    "loading article content..."@
}

/// The lower-cased title holds a critical word.
pub open spec fn title_critical(title: Seq<char>) -> bool {
    exists|k: int|
        0 <= k < critical_words().len() && contains(lowercase(title), #[trigger] critical_words()[k])
}

/// chrono's reading of a `YYYY-MM-DD` date at midnight, written in the
/// RFC 2822 form of the feed.
pub uninterp spec fn midnight_rfc2822(date: Seq<char>) -> Option<Seq<char>>;

/// chrono: `NaiveDate::parse_from_str(date, "%Y-%m-%d")`, then
/// `and_hms_opt(0, 0, 0)` and `format("%a, %d %b %Y 00:00:00 +0000")`.
/// The result depends on `date` alone; its text is left to chrono.
#[verifier::external_body]
fn index_date_to_rfc2822(date: &str) -> (r: Option<String>)
    ensures
        opt_view(r) == midnight_rfc2822(date@),
{
    match chrono::NaiveDate::parse_from_str(date, "%Y-%m-%d") {
        Ok(d) => match d.and_hms_opt(0, 0, 0) {
            Some(t) => Some(t.format("%a, %d %b %Y 00:00:00 +0000").to_string()),
            None => None,
        },
        Err(_) => None,
    }
}

/// The date shown for an index entry: its RFC 2822 form, or the date as
/// written when chrono cannot read it.
pub open spec fn index_pub_date(date: Seq<char>) -> Seq<char> {
    match midnight_rfc2822(date) {
        Some(d) => d,
        None => date,
    }
}

/// The headline made from an entry of the news index.
pub open spec fn index_item(e: (Seq<char>, Seq<char>, Seq<char>)) -> NewsView {
    NewsView {
        title: e.2,
        link: e.1,
        pub_date: index_pub_date(e.0),
        description: loading_text(),
        is_critical: title_critical(e.2),
    }
}

pub open spec fn news_views(s: Seq<NewsItem>) -> Seq<NewsView> {
    s.map_values(|n: NewsItem| n@)
}

pub open spec fn has_link(items: Seq<NewsView>, link: Seq<char>) -> bool {
    exists|i: int| 0 <= i < items.len() && (#[trigger] items[i]).link == link
}

/// The feed's headlines followed by those of the index entries whose
/// address is not listed yet, in order.
pub open spec fn add_index_items(items: Seq<NewsView>, entries: Seq<(Seq<char>, Seq<char>, Seq<char>)>) -> Seq<
    NewsView,
>
    decreases entries.len(),
{
    if entries.len() == 0 {
        items
    } else {
        let acc = add_index_items(items, entries.drop_last());
        let it = index_item(entries.last());
        if has_link(acc, it.link) {
            acc
        } else {
            acc.push(it)
        }
    }
}

fn title_critical_exec(title: &[char]) -> (r: bool)
    ensures
        r == title_critical(title@),
{
    let lt = to_lowercase(title);
    let words: [&str; 7] = [
        "manual intervention",
        "requires intervention",
        "breaking change",
        "filesystem",
        "pacman",
        "keyring",
        "glibc",
    ];
    let ghost cw = critical_words();
    assert(words@.map_values(|w: &str| w@) =~= cw);
    let mut k: usize = 0;
    while k < 7
        invariant
            k <= 7,
            words@.map_values(|w: &str| w@) == cw,
            cw == critical_words(),
            lt@ == lowercase(title@),
            forall|m: int| 0 <= m < k ==> !contains(lt@, #[trigger] cw[m]),
        decreases 7 - k,
    {
        let w = chars_of(words[k]);
        assert(w@ == cw[k as int]);
        if contains_exec(lt.as_slice(), w.as_slice()) {
            return true;
        }
        k = k + 1;
    }
    false
}

fn link_index(items: &Vec<NewsItem>, link: &str) -> (r: Option<usize>)
    ensures
        match r {
            Some(p) => p < items.len() && items@[p as int].link@ == link@ && forall|j: int|
                0 <= j < p ==> items@[j].link@ != link@,
            None => !has_link(news_views(items@), link@),
        },
{
    let mut k: usize = 0;
    while k < items.len()
        invariant
            k <= items.len(),
            forall|j: int| 0 <= j < k ==> items@[j].link@ != link@,
        decreases items.len() - k,
    {
        if str_eq(items[k].link.as_str(), link) {
            return Some(k);
        }
        k = k + 1;
    }
    assert forall|i: int| 0 <= i < news_views(items@).len() implies (
    #[trigger] news_views(items@)[i]).link != link@ by {
        assert(news_views(items@)[i] == items@[i]@);
    }
    None
}

/// The headlines of the feed followed by those of the news index that it
/// does not list, each address once.
pub fn merge_index_entries(items: Vec<NewsItem>, entries: &Vec<IndexEntry>) -> (r: Vec<NewsItem>)
    ensures
        news_views(r@) == add_index_items(
            news_views(items@),
            entries@.map_values(|e: IndexEntry| entry_view(e)),
        ),
{
    let ghost ev = entries@.map_values(|e: IndexEntry| entry_view(e));
    let ghost start = news_views(items@);
    let mut out = items;
    let mut k: usize = 0;
    assert(ev.take(0) =~= Seq::<(Seq<char>, Seq<char>, Seq<char>)>::empty());
    while k < entries.len()
        invariant
            k <= entries.len(),
            ev == entries@.map_values(|e: IndexEntry| entry_view(e)),
            news_views(out@) == add_index_items(start, ev.take(k as int)),
        decreases entries.len() - k,
    {
        let e = &entries[k];
        assert(ev.take(k + 1).drop_last() =~= ev.take(k as int));
        assert(ev.take(k + 1).last() == entry_view(*e));
        match link_index(&out, e.link.as_str()) {
            Some(p) => {
                assert(news_views(out@)[p as int].link == e.link@);
                assert(has_link(news_views(out@), e.link@));
            },
            None => {
                let pd = match index_date_to_rfc2822(e.date.as_str()) {
                    Some(d) => d,
                    None => e.date.clone(),
                };
                let tc = chars_of(e.title.as_str());
                let item = NewsItem {
                    title: e.title.clone(),
                    link: e.link.clone(),
                    pub_date: pd,
                    description: "loading article content...".to_string(),
                    is_critical: title_critical_exec(tc.as_slice()),
                };
                assert(item@ == index_item(entry_view(*e)));
                let ghost before = out@;
                out.push(item);
                assert(news_views(out@) =~= news_views(before).push(item@));
            },
        }
        k = k + 1;
    }
    assert(ev.take(k as int) =~= ev);
    out
}

/// Index of the first headline at or after `k` with the address `link`.
pub open spec fn find_link_from(items: Seq<NewsView>, link: Seq<char>, k: int) -> Option<int>
    decreases items.len() - k,
{
    if k < 0 || k >= items.len() {
        None
    } else if items[k].link == link {
        Some(k)
    } else {
        find_link_from(items, link, k + 1)
    }
}

/// The cached headlines updated with fetched ones: a headline already
/// cached takes the fetched description unless that one is still the
/// loading text; a new one is appended.
pub open spec fn merge_cached(cached: Seq<NewsView>, fetched: Seq<NewsView>) -> Seq<NewsView>
    decreases fetched.len(),
{
    if fetched.len() == 0 {
        cached
    } else {
        let acc = merge_cached(cached, fetched.drop_last());
        let f = fetched.last();
        match find_link_from(acc, f.link, 0) {
            Some(p) => if f.description != loading_text() {
                acc.update(p, NewsView { description: f.description, ..acc[p] })
            } else {
                acc
            },
            None => acc.push(f),
        }
    }
}

pub fn merge_into_cache(cached: Vec<NewsItem>, fetched: Vec<NewsItem>) -> (r: Vec<NewsItem>)
    ensures
        news_views(r@) == merge_cached(news_views(cached@), news_views(fetched@)),
{
    proof {
        reveal_strlit("loading article content...");
    }
    let ghost fv = news_views(fetched@);
    let ghost start = news_views(cached@);
    let loading = chars_of("loading article content...");
    let mut out = cached;
    let mut rest = fetched;
    let mut rev: Vec<NewsItem> = Vec::new();
    // hand the fetched headlines out front to back
    while rest.len() > 0
        invariant
            news_views(rest@) + news_views(rev@).reverse() == fv,
        decreases rest.len(),
    {
        let ghost r0 = rest@;
        let ghost v0 = rev@;
        let x = rest.pop().unwrap();
        rev.push(x);
        assert(r0 =~= rest@.push(x));
        assert(news_views(rest@) + news_views(rev@).reverse() =~= news_views(r0) + news_views(
            v0,
        ).reverse());
    }
    assert(news_views(rest@) =~= Seq::<NewsView>::empty());
    let ghost mut done: int = 0;
    assert(fv.take(0) =~= Seq::<NewsView>::empty());
    while rev.len() > 0
        invariant
            loading@ == loading_text(),
            0 <= done <= fv.len(),
            news_views(rev@).reverse() == fv.skip(done),
            news_views(out@) == merge_cached(start, fv.take(done)),
        decreases rev.len(),
    {
        let ghost v0 = rev@;
        let f = rev.pop().unwrap();
        assert(v0 =~= rev@.push(f));
        assert(news_views(v0).len() == v0.len());
        assert(news_views(v0)[v0.len() - 1] == f@);
        assert(news_views(v0).reverse()[0] == news_views(v0)[v0.len() - 1]);
        assert(fv.skip(done).len() > 0);
        assert(done < fv.len());
        assert(f@ == fv[done]) by {
            assert(news_views(v0).reverse()[0] == fv.skip(done)[0]);
        }
        assert(fv.take(done + 1).drop_last() =~= fv.take(done));
        assert(fv.take(done + 1).last() == f@);
        let mut p: usize = 0;
        while p < out.len() && !str_eq(out[p].link.as_str(), f.link.as_str())
            invariant
                p <= out.len(),
                find_link_from(news_views(out@), f@.link, 0) == find_link_from(
                    news_views(out@),
                    f@.link,
                    p as int,
                ),
            decreases out.len() - p,
        {
            assert(news_views(out@)[p as int] == out@[p as int]@);
            p = p + 1;
        }
        if p < out.len() {
            assert(news_views(out@)[p as int] == out@[p as int]@);
            assert(find_link_from(news_views(out@), f@.link, 0) == Some(p as int));
            let fd = chars_of(f.description.as_str());
            if !seq_eq(fd.as_slice(), loading.as_slice()) {
                let ghost o0 = out@;
                let mut c = out.remove(p);
                c.description = f.description;
                out.insert(p, c);
                assert(news_views(out@) =~= news_views(o0).update(
                    p as int,
                    NewsView { description: f@.description, ..news_views(o0)[p as int] },
                ));
            }
        } else {
            let ghost o0 = out@;
            out.push(f);
            assert(news_views(out@) =~= news_views(o0).push(f@));
        }
        proof {
            assert(news_views(rev@).reverse() =~= fv.skip(done + 1)) by {
                assert(news_views(v0) =~= news_views(rev@).push(f@));
                assert(news_views(v0).reverse() =~= seq![f@] + news_views(rev@).reverse());
                assert(fv.skip(done + 1) =~= fv.skip(done).drop_first());
                assert((seq![f@] + news_views(rev@).reverse()).drop_first() =~= news_views(
                    rev@,
                ).reverse());
            }
            done = done + 1;
        }
    }
    assert(fv.skip(done).len() == 0);
    assert(fv.take(done) =~= fv);
    out
}

/// chrono's reading of an RFC 2822 date: seconds since the epoch.
pub uninterp spec fn rfc2822_seconds(s: Seq<char>) -> Option<i64>;

/// chrono: `DateTime::parse_from_rfc2822(s)` and its `timestamp()`. The
/// result depends on `s` alone.
#[verifier::external_body]
fn rfc2822_timestamp(s: &str) -> (r: Option<i64>)
    ensures
        r == rfc2822_seconds(s@),
{
    match chrono::DateTime::parse_from_rfc2822(s) {
        Ok(d) => Some(d.timestamp()),
        Err(_) => None,
    }
}

/// `a` may come before `b` in the cache: both dates read by chrono and `a`
/// not older, or else `b`'s date text not after `a`'s.
pub open spec fn newer_or_same(a: NewsView, b: NewsView) -> bool {
    match (rfc2822_seconds(a.pub_date), rfc2822_seconds(b.pub_date)) {
        (Some(x), Some(y)) => x >= y,
        _ => lex_le(b.pub_date, a.pub_date),
    }
}

/// The order of the news cache.
pub struct NewsOrder;

impl Comparison<NewsItem> for NewsOrder {
    open spec fn le(&self, a: NewsItem, b: NewsItem) -> bool {
        newer_or_same(a@, b@)
    }

    fn le_exec(&self, a: &NewsItem, b: &NewsItem) -> (r: bool) {
        match (rfc2822_timestamp(a.pub_date.as_str()), rfc2822_timestamp(b.pub_date.as_str())) {
            (Some(x), Some(y)) => x >= y,
            _ => {
                let ac = chars_of(a.pub_date.as_str());
                let bc = chars_of(b.pub_date.as_str());
                lex_le_exec(bc.as_slice(), ac.as_slice())
            },
        }
    }
}

/// Most headlines the cache keeps.
pub const NEWS_CACHE_LIMIT: usize = 1000;

/// The cache ordered newest first (dates chrono cannot read compared as
/// text), headlines that rank equal keeping their order, and cut to its
/// limit; the order is a sorted one whenever this comparison orders the
/// headlines consistently.
pub fn sort_news_cache(items: Vec<NewsItem>) -> (r: Vec<NewsItem>)
    ensures
        exists|s: Seq<NewsItem>, perm: Seq<int>|
            {
                &&& #[trigger] reorders(items@, s, perm)
                &&& consistent_on(&NewsOrder, items@) ==> forall|i: int, j: int|
                    0 <= i < j < s.len() ==> newer_or_same((#[trigger] s[i])@, (#[trigger] s[j])@)
                &&& consistent_on(&NewsOrder, items@) ==> forall|i: int, j: int|
                    0 <= i < j < s.len() && newer_or_same((#[trigger] s[i])@, (#[trigger] s[j])@)
                        && newer_or_same(s[j]@, s[i]@) ==> perm[i] < perm[j]
                &&& r@ == s.take(
                    if s.len() <= NEWS_CACHE_LIMIT {
                        s.len() as int
                    } else {
                        NEWS_CACHE_LIMIT as int
                    },
                )
            },
{
    let ghost i0 = items@;
    let order = NewsOrder;
    let mut sorted = sort_with(items, &order);
    let ghost s = sorted@;
    let ghost perm = choose|perm: Seq<int>|
        #[trigger] reorders(i0, s, perm) && (consistent_on(&order, i0) ==> ties_kept_with(&order, s, perm));
    sorted.truncate(NEWS_CACHE_LIMIT);
    assert(sorted@ =~= s.take(
        if s.len() <= NEWS_CACHE_LIMIT {
            s.len() as int
        } else {
            NEWS_CACHE_LIMIT as int
        },
    ));
    assert(reorders(i0, s, perm));
    sorted
}

// ------------------------------------------------------ the articles ----

/// The markup of an article page flattened: paragraphs and line breaks
/// into new lines, list items into bullets.
pub open spec fn flatten_article(s: Seq<char>) -> Seq<char> {
    let b = replace_all(replace_all(s, "<p>"@, ""@), "</p>"@, "\n\n"@);
    let c = replace_all(replace_all(b, "<li>"@, "• "@), "</li>"@, "\n"@);
    let d = replace_all(replace_all(c, "<ul>"@, ""@), "</ul>"@, "\n"@);
    replace_all(replace_all(replace_all(d, "<br>"@, "\n"@), "<br/>"@, "\n"@), "<br />"@, "\n"@)
}

/// The text of an article page: what its `article-content` block holds up
/// to the next `</div>`, flattened, without tags but `<code>`, with the
/// HTML entities decoded.
pub open spec fn article_body(html: Seq<char>) -> Option<Seq<char>> {
    let marker = "class=\"article-content\">"@;
    match find(html, marker) {
        None => None,
        Some(s) => {
            let start = s + marker.len();
            match find(html.skip(start), "</div>"@) {
                None => None,
                Some(e) => Some(
                    decode_html(restore_code(strip_tags(flatten_article(html.subrange(start, start + e))))),
                ),
            }
        },
    }
}

pub fn extract_article_body(html: &str) -> (r: Option<String>)
    ensures
        opt_view(r) == article_body(html@),
{
    proof {
        reveal_strlit("class=\"article-content\">");
    }
    let cs = chars_of(html);
    let marker = chars_of("class=\"article-content\">");
    let s = match find_exec(cs.as_slice(), marker.as_slice()) {
        Some(s) => s,
        None => return None,
    };
    let start = s + marker.len();
    let tail = slice_range(cs.as_slice(), start, cs.len());
    assert(tail@ =~= cs@.skip(start as int));
    let close = chars_of("</div>");
    let e = match find_exec(tail.as_slice(), close.as_slice()) {
        Some(e) => e,
        None => return None,
    };
    let body = slice_range(cs.as_slice(), start, start + e);
    let b = replace_str(replace_str(body, "<p>", ""), "</p>", "\n\n");
    let c = replace_str(replace_str(b, "<li>", "• "), "</li>", "\n");
    let d = replace_str(replace_str(c, "<ul>", ""), "</ul>", "\n");
    let f = replace_str(replace_str(replace_str(d, "<br>", "\n"), "<br/>", "\n"), "<br />", "\n");
    let stripped = strip_tags_exec(f);
    let restored = replace_str(replace_str(stripped, "[[CODE_START]]", "<code>"), "[[CODE_END]]", "</code>");
    let decoded = decode_html_exec(restored);
    Some(string_of(decoded.as_slice()))
}

/// The description of an item: the text between its first
/// `<description>` and its first `</description>`, when both are there in
/// that order; otherwise nothing.
pub open spec fn item_description(it: Seq<char>) -> Seq<char> {
    match (find(it, "<description>"@), find(it, "</description>"@)) {
        (Some(s), Some(e)) => if s + 13 <= e {
            it.subrange(s + 13, e)
        } else {
            Seq::empty()
        },
        _ => Seq::empty(),
    }
}

/// The title, date and description of the first item of the feed: the
/// text inside its first `<title>` and `<pubDate>` (searched from the item
/// to the end of the feed), when both are there with each closing tag after
/// its opening tag, with its description.
pub open spec fn latest_headline(xml: Seq<char>) -> Option<(Seq<char>, Seq<char>, Seq<char>)> {
    match find(xml, "<item>"@) {
        None => None,
        Some(a) => {
            let it = xml.skip(a);
            match (find(it, "<title>"@), find(it, "</title>"@)) {
                (Some(t), Some(te)) => match (find(it, "<pubDate>"@), find(it, "</pubDate>"@)) {
                    (Some(d), Some(de)) => if t + 7 <= te && d + 9 <= de {
                        Some((it.subrange(t + 7, te), it.subrange(d + 9, de), item_description(it)))
                    } else {
                        None
                    },
                    _ => None,
                },
                _ => None,
            }
        },
    }
}

/// Seconds in a day.
pub const SECS_PER_DAY: i64 = 86400;

/// Whether a headline published `age_secs` seconds ago (negative when it is
/// dated in the future) calls for the warning before an upgrade: its age in
/// whole days, rounded toward zero, is at most seven.
pub open spec fn headline_recent(age_secs: int) -> bool {
    age_secs < 0 || age_secs / (SECS_PER_DAY as int) <= 7
}

pub fn headline_is_recent(age_secs: i64) -> (r: bool)
    ensures
        r == headline_recent(age_secs as int),
{
    age_secs < 0 || age_secs / SECS_PER_DAY <= 7
}

/// Whether a text, in lower case, asks for manual intervention.
pub open spec fn asks_intervention(text: Seq<char>) -> bool {
    contains(lowercase(text), "manual intervention"@)
}

/// Whether the upgrade shows the news warning for a headline published
/// `age_secs` seconds ago: it is recent and its title or its description
/// asks for manual intervention.
pub open spec fn news_guard(age_secs: int, title: Seq<char>, description: Seq<char>) -> bool {
    headline_recent(age_secs) && (asks_intervention(title) || asks_intervention(description))
}

pub fn news_guard_due(age_secs: i64, title: &str, description: &str) -> (r: bool)
    ensures
        r == news_guard(age_secs as int, title@, description@),
{
    if !headline_is_recent(age_secs) {
        return false;
    }
    let needle = chars_of("manual intervention");
    let t = to_lowercase(chars_of(title).as_slice());
    if contains_exec(t.as_slice(), needle.as_slice()) {
        return true;
    }
    let d = to_lowercase(chars_of(description).as_slice());
    contains_exec(d.as_slice(), needle.as_slice())
}

/// The upgrade warns of exactly the headlines less than eight days old
/// (and of those dated in the future) whose title or description asks for
/// manual intervention; a headline that asks for none is never warned of.
pub proof fn law_news_guard_window(age_secs: int, title: Seq<char>, description: Seq<char>)
    ensures
        news_guard(age_secs, title, description) <==> (age_secs < 8 * SECS_PER_DAY && (
        asks_intervention(title) || asks_intervention(description))),
        !asks_intervention(title) && !asks_intervention(description) ==> !news_guard(
            age_secs,
            title,
            description,
        ),
{
    if age_secs >= 0 {
        assert(age_secs / 86400 <= 7 <==> age_secs < 691200) by (nonlinear_arith)
            requires
                age_secs >= 0,
        ;
    }
}

/// The title, the date and the description of the newest headline of the
/// feed.
pub fn latest_news_headline(xml: &str) -> (r: Option<(String, String, String)>)
    ensures
        match r {
            Some((t, d, e)) => latest_headline(xml@) == Some((t@, d@, e@)),
            None => latest_headline(xml@) is None,
        },
{
    proof {
        reveal_strlit("<title>");
        reveal_strlit("<pubDate>");
        reveal_strlit("<description>");
    }
    let cs = chars_of(xml);
    let open = chars_of("<item>");
    let a = match find_exec(cs.as_slice(), open.as_slice()) {
        Some(a) => a,
        None => return None,
    };
    let it = slice_range(cs.as_slice(), a, cs.len());
    assert(it@ =~= cs@.skip(a as int));
    let t = chars_of("<title>");
    let te = chars_of("</title>");
    let d = chars_of("<pubDate>");
    let de = chars_of("</pubDate>");
    match (find_exec(it.as_slice(), t.as_slice()), find_exec(it.as_slice(), te.as_slice())) {
        (Some(ts), Some(tend)) => match (
            find_exec(it.as_slice(), d.as_slice()),
            find_exec(it.as_slice(), de.as_slice()),
        ) {
            (Some(ds), Some(dend)) => {
                if ts > tend || tend - ts < 7 || ds > dend || dend - ds < 9 {
                    return None;
                }
                let title = slice_range(it.as_slice(), ts + 7, tend);
                let date = slice_range(it.as_slice(), ds + 9, dend);
                let desc = description_of(it.as_slice());
                Some((string_of(title.as_slice()), string_of(date.as_slice()), string_of(desc.as_slice())))
            },
            _ => None,
        },
        _ => None,
    }
}

fn description_of(it: &[char]) -> (r: Vec<char>)
    ensures
        r@ == item_description(it@),
{
    proof {
        reveal_strlit("<description>");
    }
    let s = chars_of("<description>");
    let e = chars_of("</description>");
    match (find_exec(it, s.as_slice()), find_exec(it, e.as_slice())) {
        (Some(a), Some(b)) => if a + 13 <= b {
            slice_range(it, a + 13, b)
        } else {
            Vec::new()
        },
        _ => Vec::new(),
    }
}

// ---------------------------------------------------- reading the news ----

/// A line of an article as a command to copy: without code markers,
/// trimmed, without one leading `#` or `$` prompt (trimmed again), when it
/// then starts with one of the known commands.
pub open spec fn copyable_line(line: Seq<char>) -> Option<Seq<char>> {
    let cleaned = replace_all(replace_all(line, "<code>"@, ""@), "</code>"@, ""@);
    let t = trim(cleaned);
    let l = if t.len() > 0 && (t[0] == '#' || t[0] == '$') {
        trim(t.drop_first())
    } else {
        t
    };
    if starts_with(l, "pacman "@) || starts_with(l, "systemctl "@) || starts_with(l, "mkinitcpio "@)
        || starts_with(l, "grub-install "@) || starts_with(l, "chown "@) {
        Some(l)
    } else {
        None
    }
}

pub open spec fn copyable_lines(ls: Seq<Seq<char>>) -> Seq<Seq<char>>
    decreases ls.len(),
{
    if ls.len() == 0 {
        seq![]
    } else {
        let rest = copyable_lines(ls.drop_last());
        match copyable_line(ls.last()) {
            Some(c) => rest.push(c),
            None => rest,
        }
    }
}

fn copyable_line_exec(line: &[char]) -> (r: Option<Vec<char>>)
    ensures
        match r {
            Some(c) => copyable_line(line@) == Some(c@),
            None => copyable_line(line@) is None,
        },
{
    let copy = slice_range(line, 0, line.len());
    assert(copy@ =~= line@);
    let a = replace_str(copy, "<code>", "");
    let cleaned = replace_str(a, "</code>", "");
    let t = trim_exec(cleaned.as_slice());
    let l = if t.len() > 0 && (t[0] == '#' || t[0] == '$') {
        let rest = slice_range(t.as_slice(), 1, t.len());
        assert(rest@ =~= t@.drop_first());
        trim_exec(rest.as_slice())
    } else {
        t
    };
    let ls = l.as_slice();
    if starts_with_exec(ls, chars_of("pacman ").as_slice()) || starts_with_exec(
        ls,
        chars_of("systemctl ").as_slice(),
    ) || starts_with_exec(ls, chars_of("mkinitcpio ").as_slice()) || starts_with_exec(
        ls,
        chars_of("grub-install ").as_slice(),
    ) || starts_with_exec(ls, chars_of("chown ").as_slice()) {
        Some(l)
    } else {
        None
    }
}

/// The commands of an article that `c` copies, in order.
pub fn copyable_commands(description: &str) -> (r: Vec<String>)
    ensures
        strings_view(r@) == copyable_lines(lines(description@)),
{
    let ls = lines_exec(chars_of(description).as_slice());
    let ghost lv = lines(description@);
    let mut out: Vec<String> = Vec::new();
    let mut k: usize = 0;
    assert(strings_view(out@) =~= copyable_lines(lv.take(0)));
    while k < ls.len()
        invariant
            k <= ls.len(),
            lv == lines(description@),
            ls@.len() == lv.len(),
            forall|i: int| 0 <= i < ls@.len() ==> (#[trigger] ls@[i])@ == lv[i],
            strings_view(out@) == copyable_lines(lv.take(k as int)),
        decreases ls.len() - k,
    {
        assert(lv.take(k + 1).drop_last() =~= lv.take(k as int));
        assert(lv.take(k + 1).last() == ls@[k as int]@);
        let ghost o = out@;
        match copyable_line_exec(ls[k].as_slice()) {
            Some(c) => {
                out.push(string_of(c.as_slice()));
                assert(strings_view(out@) =~= strings_view(o).push(c@));
            },
            None => {},
        }
        k = k + 1;
    }
    assert(lv.take(k as int) =~= lv);
    out
}

/// What the status line says after `c`: that nothing was found, how many
/// commands were copied, or the one command copied.
pub open spec fn copy_status_spec(cmds: Seq<Seq<char>>) -> Seq<char> {
    if join(cmds, "\n"@).len() == 0 {
        "no command found to copy"@
    } else if cmds.len() > 1 {
        "copied "@ + decimal(cmds.len()) + " commands to clipboard"@
    } else {
        "copied \""@ + join(cmds, "\n"@) + "\" to clipboard"@
    }
}

pub fn copy_status(cmds: &Vec<String>) -> (r: String)
    ensures
        r@ == copy_status_spec(strings_view(cmds@)),
{
    let text = join_exec(cmds, "\n");
    if text.as_str().is_empty() {
        "no command found to copy".to_string()
    } else if cmds.len() > 1 {
        "copied ".to_string().concat(decimal_string(cmds.len() as u64).as_str()).concat(
            " commands to clipboard",
        )
    } else {
        "copied \"".to_string().concat(text.as_str()).concat("\" to clipboard")
    }
}

/// The position in the search results of the row `idx` of page `page`.
pub open spec fn news_index(page: nat, idx: nat) -> nat {
    ((if page == 0 {
        0
    } else {
        (page - 1) * NEWS_PAGE_SIZE as nat
    }) + idx) as nat
}

pub fn news_item_index(page: usize, idx: usize) -> (r: usize)
    requires
        page * NEWS_PAGE_SIZE + idx <= usize::MAX,
    ensures
        r == news_index(page as nat, idx as nat),
{
    (if page == 0 {
        0
    } else {
        (page - 1) * NEWS_PAGE_SIZE
    }) + idx
}

/// A headline whose article still has to be fetched.
pub open spec fn needs_body_spec(description: Seq<char>) -> bool {
    description == loading_text() || description.len() == 0
}

pub fn needs_body(description: &str) -> (r: bool)
    ensures
        r == needs_body_spec(description@),
{
    str_eq(description, "loading article content...") || description.is_empty()
}

/// The number of pages that `total` headlines fill.
pub open spec fn page_total(total: nat) -> nat {
    (total + NEWS_PAGE_SIZE - 1) as nat / NEWS_PAGE_SIZE as nat
}

/// The page after `]`: the next one while there is one; the headlines
/// counted are all those announced, or the search results while searching.
pub open spec fn next_page_spec(page: nat, announced: nat, results: nat, searching: bool) -> nat {
    let total = if searching {
        results
    } else {
        announced
    };
    if page < page_total(total) {
        page + 1
    } else {
        page
    }
}

pub fn next_news_page(page: usize, announced: usize, results: usize, searching: bool) -> (r: usize)
    ensures
        r == next_page_spec(page as nat, announced as nat, results as nat, searching),
{
    let total = if searching {
        results
    } else {
        announced
    };
    let pages = total / NEWS_PAGE_SIZE + if total % NEWS_PAGE_SIZE == 0 {
        0
    } else {
        1
    };
    assert(pages == page_total(total as nat)) by (nonlinear_arith)
        requires
            pages == total / 25 + if total % 25 == 0 {
                0int
            } else {
                1int
            },
    ;
    if page < pages {
        page + 1
    } else {
        page
    }
}

/// The web page of the news index to fetch so that page `page` can be
/// shown: none while the headlines loaded cover it or all are loaded.
pub open spec fn index_page_needed(page: nat, loaded: nat, announced: nat) -> Option<nat> {
    if page * NEWS_PAGE_SIZE > loaded && loaded < announced {
        Some(loaded / 50 + 1)
    } else {
        None
    }
}

pub fn news_index_page_needed(page: usize, loaded: usize, announced: usize) -> (r: Option<usize>)
    requires
        page * NEWS_PAGE_SIZE <= usize::MAX,
    ensures
        match r {
            Some(p) => index_page_needed(page as nat, loaded as nat, announced as nat) == Some(p as nat),
            None => index_page_needed(page as nat, loaded as nat, announced as nat) is None,
        },
{
    if page * NEWS_PAGE_SIZE > loaded && loaded < announced {
        Some(loaded / 50 + 1)
    } else {
        None
    }
}

/// The row selected after moving down the current page: the next one,
/// back to the first after the last, or the first when none was selected.
pub open spec fn page_down_spec(sel: Option<usize>, shown: nat) -> nat {
    match sel {
        Some(i) => if i >= (if shown == 0 {
            0
        } else {
            shown - 1
        }) {
            0
        } else {
            (i + 1) as nat
        },
        None => 0,
    }
}

/// The row selected after moving up the current page: the previous one,
/// the last after the first, or the first when none was selected.
pub open spec fn page_up_spec(sel: Option<usize>, shown: nat) -> nat {
    match sel {
        Some(i) => if i == 0 {
            if shown == 0 {
                0
            } else {
                (shown - 1) as nat
            }
        } else {
            (i - 1) as nat
        },
        None => 0,
    }
}

pub fn news_row_down(sel: Option<usize>, shown: usize) -> (r: usize)
    ensures
        r == page_down_spec(sel, shown as nat),
{
    match sel {
        Some(i) => if i >= (if shown == 0 {
            0
        } else {
            shown - 1
        }) {
            0
        } else {
            i + 1
        },
        None => 0,
    }
}

pub fn news_row_up(sel: Option<usize>, shown: usize) -> (r: usize)
    ensures
        r == page_up_spec(sel, shown as nat),
{
    match sel {
        Some(i) => if i == 0 {
            if shown == 0 {
                0
            } else {
                shown - 1
            }
        } else {
            i - 1
        },
        None => 0,
    }
}

/// How many headlines page `page` shows of `len` results.
pub fn news_page_count(page: usize, len: usize) -> (r: usize)
    requires
        page * NEWS_PAGE_SIZE <= usize::MAX,
    ensures
        r == page_count(page as nat, len as nat),
{
    let start = if page == 0 {
        0
    } else {
        (page - 1) * NEWS_PAGE_SIZE
    };
    let end = if start + NEWS_PAGE_SIZE <= len {
        start + NEWS_PAGE_SIZE
    } else {
        len
    };
    if end >= start {
        end - start
    } else {
        0
    }
}


/// Every headline read from the feed has a title.
pub proof fn law_headlines_have_titles(spans: Seq<Seq<char>>)
    ensures
        forall|i: int| 0 <= i < headlines(spans).len() ==> (#[trigger] headlines(spans)[i]).title.len() > 0,
    decreases spans.len(),
{
    if spans.len() > 0 {
        law_headlines_have_titles(spans.drop_last());
        let rest = headlines(spans.drop_last());
        assert forall|i: int| 0 <= i < headlines(spans).len() implies (#[trigger] headlines(spans)[i]).title.len()
            > 0 by {
            if i < rest.len() {
                assert(headlines(spans)[i] == rest[i]);
            }
        }
    }
}

/// No two headlines share an address.
pub open spec fn links_distinct(items: Seq<NewsView>) -> bool {
    forall|i: int, j: int| 0 <= i < j < items.len() ==> (#[trigger] items[i]).link != (#[trigger] items[j]).link
}

/// Adding the news index to the feed keeps the feed's headlines first and
/// lists no address twice when the feed did not.
pub proof fn law_index_merge_keeps_links_distinct(
    items: Seq<NewsView>,
    entries: Seq<(Seq<char>, Seq<char>, Seq<char>)>,
)
    requires
        links_distinct(items),
    ensures
        links_distinct(add_index_items(items, entries)),
        add_index_items(items, entries).len() >= items.len(),
        add_index_items(items, entries).take(items.len() as int) == items,
    decreases entries.len(),
{
    if entries.len() > 0 {
        law_index_merge_keeps_links_distinct(items, entries.drop_last());
        let acc = add_index_items(items, entries.drop_last());
        let it = index_item(entries.last());
        if !has_link(acc, it.link) {
            assert(acc.push(it).take(items.len() as int) =~= acc.take(items.len() as int));
            assert forall|i: int, j: int| 0 <= i < j < acc.push(it).len() implies (#[trigger] acc.push(
                it,
            )[i]).link != (#[trigger] acc.push(it)[j]).link by {
                if j == acc.len() {
                    assert(acc.push(it)[i] == acc[i]);
                } else {
                    assert(acc.push(it)[i] == acc[i] && acc.push(it)[j] == acc[j]);
                }
            }
        }
    } else {
        assert(items.take(items.len() as int) =~= items);
    }
}

/// Moving down and then up the rows of a page comes back to the same row.
pub proof fn law_news_rows_down_up(i: usize, shown: nat)
    requires
        i < shown,
        shown <= usize::MAX,
    ensures
        page_up_spec(Some(page_down_spec(Some(i), shown) as usize), shown) == i,
{
}

/// Every command that `c` copies starts with one of the known commands.
pub proof fn law_copied_commands_are_commands(ls: Seq<Seq<char>>)
    ensures
        forall|i: int|
            0 <= i < copyable_lines(ls).len() ==> {
                let c = #[trigger] copyable_lines(ls)[i];
                starts_with(c, "pacman "@) || starts_with(c, "systemctl "@) || starts_with(c, "mkinitcpio "@)
                    || starts_with(c, "grub-install "@) || starts_with(c, "chown "@)
            },
    decreases ls.len(),
{
    if ls.len() > 0 {
        law_copied_commands_are_commands(ls.drop_last());
        let rest = copyable_lines(ls.drop_last());
        assert forall|i: int| 0 <= i < copyable_lines(ls).len() implies {
            let c = #[trigger] copyable_lines(ls)[i];
            starts_with(c, "pacman "@) || starts_with(c, "systemctl "@) || starts_with(c, "mkinitcpio "@)
                || starts_with(c, "grub-install "@) || starts_with(c, "chown "@)
        } by {
            if i < rest.len() {
                assert(copyable_lines(ls)[i] == rest[i]);
            }
        }
    }
}


// ------------------------------------------------ the article's lines ----

/// A line of an article's description, as the reader shows it.
#[derive(Debug, PartialEq, Eq)]
pub enum ArticleLine {
    /// A command, shown in a block of its own: the text before the first
    /// space and what follows it.
    Command { cmd: String, args: String },
    /// Plain text, and whether it lies inside a code block.
    Text { text: String, in_code: bool },
}

pub open spec fn line_view(l: ArticleLine) -> (bool, Seq<char>, Seq<char>, bool) {
    match l {
        ArticleLine::Command { cmd, args } => (true, cmd@, args@, false),
        ArticleLine::Text { text, in_code } => (false, text@, seq![], in_code),
    }
}

/// One description line read in the code state `in_code`: the line
/// without its code markers and the code state after it (`<code>` opens a
/// block, `</code>` closes it).
pub open spec fn code_step(line: Seq<char>, in_code: bool) -> (Seq<char>, bool) {
    let (a, c1) = if contains(line, "<code>"@) {
        (replace_all(line, "<code>"@, ""@), true)
    } else {
        (line, in_code)
    };
    if contains(a, "</code>"@) {
        (replace_all(a, "</code>"@, ""@), false)
    } else {
        (a, c1)
    }
}

/// What a line becomes: a command split at its first space, or text.
pub open spec fn classify_line(text: Seq<char>, in_code: bool) -> (bool, Seq<char>, Seq<char>, bool) {
    if command_line(text) {
        match find(text, " "@) {
            Some(i) => (true, text.take(i), text.skip(i + 1), false),
            None => (true, text, seq![], false),
        }
    } else {
        (false, text, seq![], in_code)
    }
}

/// The lines of a description read from the code state `in_code`.
pub open spec fn article_body_lines(ls: Seq<Seq<char>>, in_code: bool) -> Seq<(bool, Seq<char>, Seq<char>, bool)>
    decreases ls.len(),
{
    if ls.len() == 0 {
        seq![]
    } else {
        let (t, c) = code_step(ls[0], in_code);
        seq![classify_line(t, c)] + article_body_lines(ls.drop_first(), c)
    }
}

/// The article shows the manual-intervention banner: it is critical and
/// its description, in lower case, says so.
pub open spec fn shows_banner(n: NewsView) -> bool {
    n.is_critical && contains(lowercase(n.description), "manual intervention"@)
}

pub fn article_banner(article: &NewsItem) -> (r: bool)
    ensures
        r == shows_banner(article@),
{
    let d = to_lowercase(chars_of(article.description.as_str()).as_slice());
    article.is_critical && contains_exec(d.as_slice(), chars_of("manual intervention").as_slice())
}

/// The lines of an article's description, in order.
pub fn article_lines(description: &str) -> (r: Vec<ArticleLine>)
    ensures
        r@.map_values(|l: ArticleLine| line_view(l)) == article_body_lines(lines(description@), false),
{
    proof {
        reveal_strlit(" ");
    }
    let ls = lines_exec(chars_of(description).as_slice());
    let ghost lv = lines(description@);
    let mut out: Vec<ArticleLine> = Vec::new();
    let mut in_code = false;
    let mut k: usize = 0;
    let open = chars_of("<code>");
    let close = chars_of("</code>");
    assert(lv.skip(0) =~= lv);
    assert(out@.map_values(|l: ArticleLine| line_view(l)) + article_body_lines(lv.skip(0), false)
        =~= article_body_lines(lv, false));
    while k < ls.len()
        invariant
            k <= ls.len(),
            lv == lines(description@),
            ls@.len() == lv.len(),
            open@ == "<code>"@,
            close@ == "</code>"@,
            forall|i: int| 0 <= i < ls@.len() ==> (#[trigger] ls@[i])@ == lv[i],
            out@.map_values(|l: ArticleLine| line_view(l)) + article_body_lines(lv.skip(k as int), in_code)
                == article_body_lines(lv, false),
        decreases ls.len() - k,
    {
        let ghost rest = lv.skip(k as int);
        assert(rest[0] == ls@[k as int]@);
        assert(rest.drop_first() =~= lv.skip(k + 1));
        let line = &ls[k];
        let mut cur = slice_range(line.as_slice(), 0, line.len());
        assert(cur@ =~= line@);
        let mut code = in_code;
        if contains_exec(cur.as_slice(), open.as_slice()) {
            code = true;
            cur = replace_all_exec(cur.as_slice(), open.as_slice(), chars_of("").as_slice());
        }
        if contains_exec(cur.as_slice(), close.as_slice()) {
            code = false;
            cur = replace_all_exec(cur.as_slice(), close.as_slice(), chars_of("").as_slice());
        }
        assert((cur@, code) == code_step(line@, in_code));
        let text = string_of(cur.as_slice());
        let entry = if is_command(text.as_str()) {
            match find_exec(cur.as_slice(), chars_of(" ").as_slice()) {
                Some(i) => {
                    let a = slice_range(cur.as_slice(), 0, i);
                    let b = slice_range(cur.as_slice(), i + 1, cur.len());
                    assert(a@ =~= cur@.take(i as int));
                    assert(b@ =~= cur@.skip(i + 1));
                    ArticleLine::Command { cmd: string_of(a.as_slice()), args: string_of(b.as_slice()) }
                },
                None => ArticleLine::Command { cmd: text, args: String::new() },
            }
        } else {
            ArticleLine::Text { text, in_code: code }
        };
        assert(line_view(entry) == classify_line(cur@, code));
        let ghost o = out@;
        out.push(entry);
        assert(out@.map_values(|l: ArticleLine| line_view(l)) =~= o.map_values(|l: ArticleLine| line_view(l)).push(
            line_view(entry),
        ));
        assert(article_body_lines(rest, in_code) == seq![classify_line(cur@, code)] + article_body_lines(
            rest.drop_first(),
            code,
        ));
        assert(out@.map_values(|l: ArticleLine| line_view(l)) + article_body_lines(lv.skip(k + 1), code)
            =~= o.map_values(|l: ArticleLine| line_view(l)) + article_body_lines(rest, in_code));
        in_code = code;
        k = k + 1;
    }
    assert(lv.skip(k as int) =~= Seq::<Seq<char>>::empty());
    assert(out@.map_values(|l: ArticleLine| line_view(l)) + Seq::<(bool, Seq<char>, Seq<char>, bool)>::empty()
        =~= out@.map_values(|l: ArticleLine| line_view(l)));
    out
}

/// chrono's reading of an RFC 2822 date written as `%b %d, %Y`.
pub uninterp spec fn short_date(pub_date: Seq<char>) -> Option<Seq<char>>;

/// chrono: `DateTime::parse_from_rfc2822(pub_date)` and its
/// `format("%b %d, %Y")`. The result depends on `pub_date` alone.
#[verifier::external_body]
fn rfc2822_short(pub_date: &str) -> (r: Option<String>)
    ensures
        opt_view(r) == short_date(pub_date@),
{
    match chrono::DateTime::parse_from_rfc2822(pub_date) {
        Ok(d) => Some(d.format("%b %d, %Y").to_string()),
        Err(_) => None,
    }
}

/// The date an article shows: short when chrono reads it, else as given.
pub fn article_date(pub_date: &str) -> (r: String)
    ensures
        r@ == match short_date(pub_date@) {
            Some(d) => d,
            None => pub_date@,
        },
{
    match rfc2822_short(pub_date) {
        Some(d) => d,
        None => pub_date.to_string(),
    }
}

} // verus!
