//! The web crawler's reports and search addresses.

use vstd::prelude::*;
use vstd::string::*;
use crate::text::{
    before_first, chars_of, decimal, decimal_string, digit_char, first_of, has_prefix, join,
    join_strings, lines_view, split_all, split_by, starts_with, string_from_chars, strings_view,
    take_before, take_first, trim_chars, trimmed,
};

verus! {

/// What a visit to a page brought back.
#[derive(Clone, Debug)]
pub struct PageContent {
    /// The address of the page, after redirects.
    pub url: String,
    pub title: Option<String>,
    pub text: String,
    /// The addresses that the page links to.
    pub links: Vec<String>,
}

/// Whether the byte `b` stands for itself in an encoded address: the ASCII
/// letters and digits and `-`, `.`, `_`, `~` do.
pub open spec fn unreserved(b: u8) -> bool {
    ||| 0x30 <= b <= 0x39
    ||| 0x41 <= b <= 0x5a
    ||| 0x61 <= b <= 0x7a
    ||| b == 0x2d
    ||| b == 0x2e
    ||| b == 0x5f
    ||| b == 0x7e
}

/// The character that writes the hexadecimal digit `d`, in upper case.
pub open spec fn hex_digit(d: int) -> char {
    if d < 10 {
        digit_char(d)
    } else if d == 10 {
        'A'
    } else if d == 11 {
        'B'
    } else if d == 12 {
        'C'
    } else if d == 13 {
        'D'
    } else if d == 14 {
        'E'
    } else {
        'F'
    }
}

/// The bytes `bytes`, percent-encoded: an unreserved byte as its character,
/// any other as `%` and its two hexadecimal digits.
pub open spec fn percent_encoded(bytes: Seq<u8>) -> Seq<char>
    decreases bytes.len(),
{
    if bytes.len() == 0 {
        Seq::empty()
    } else {
        percent_encoded(bytes.drop_last()) + if unreserved(bytes.last()) {
            seq![bytes.last() as char]
        } else {
            seq!['%', hex_digit(bytes.last() as int / 16), hex_digit(bytes.last() as int % 16)]
        }
    }
}

/// Calls `urlencoding::encode`: every byte of the text's UTF-8 form is
/// percent-encoded, except ASCII letters and digits and `-`, `.`, `_`, `~`;
/// the hexadecimal digits are in upper case.
#[verifier::external_body]
fn percent_encode(text: &str) -> (encoded: String)
    ensures
        encoded@ == percent_encoded(text.spec_bytes()),
{
    urlencoding::encode(text).into_owned()
}

/// The line that rules off the parts of a report.
pub open spec fn rule_line() -> Seq<char> {
    "──────────────────────────────────────────────────"@
}

/// The items of a list, each behind its number: `1. `, `2. ` and so on.
pub open spec fn numbered(items: Seq<Seq<char>>) -> Seq<Seq<char>> {
    Seq::new(items.len(), |i: int| decimal((i + 1) as nat) + ". "@ + items[i])
}

/// The lines of `lines`, each closed by a line feed, one after another.
pub open spec fn stacked(lines: Seq<Seq<char>>) -> Seq<char>
    decreases lines.len(),
{
    if lines.len() == 0 {
        Seq::empty()
    } else {
        stacked(lines.drop_last()) + lines.last() + "\n"@
    }
}

/// The addresses at which to search for a query whose encoded form is `q`.
pub open spec fn search_addresses(q: Seq<char>) -> Seq<Seq<char>> {
    seq![
        "https://www.google.com/search?q="@ + q,
        "https://www.google.com/search?q="@ + q + "&tbm=nws"@,
        "https://www.google.com/search?q="@ + q + "+review"@,
        "https://duckduckgo.com/?q="@ + q,
        "https://duckduckgo.com/?q="@ + q + "+guide"@,
        "https://duckduckgo.com/?q="@ + q + "&t=h_"@,
        "https://duckduckgo.com/?q="@ + q + "+tutorial"@,
    ]
}

/// The addresses at which a plain search for a query looks, where `q` is
/// the encoded form of the query.
pub open spec fn plain_search_addresses(q: Seq<char>) -> Seq<Seq<char>> {
    seq![
        "https://www.google.com/search?q="@ + q,
        "https://en.wikipedia.org/wiki/Special:Search?search="@ + q,
        "https://duckduckgo.com/?q="@ + q,
    ]
}

/// The analysis of a page at `url` with the text `text`, line by line.
pub open spec fn analysis_lines(url: Seq<char>, text: Seq<char>) -> Seq<Seq<char>> {
    seq![
        "🔍 Analyzing: "@ + url,
        Seq::empty(),
        "📚 Content Analysis:"@,
        rule_line(),
        text,
        rule_line(),
    ]
}

/// The findings of a research on `topic` that brought `results`, line by line.
pub open spec fn research_lines(topic: Seq<char>, results: Seq<Seq<char>>) -> Seq<Seq<char>> {
    seq!["📚 Research Results for: "@ + topic, rule_line(), "🔍 Search Results:"@] + numbered(
        results,
    ) + seq![
        rule_line(),
        "💡 Tip: Click any of these links to read more about the topic"@,
        "📊 Found "@ + decimal(results.len()) + " sources"@,
    ]
}

/// The report on the links of the page at `url`.
pub open spec fn links_text(url: Seq<char>, links: Seq<Seq<char>>) -> Seq<char> {
    "🔗 Links found on: "@ + url + "\n"@ + rule_line() + "\n"@ + (if links.len() == 0 {
        "No links found on this page.\n"@
    } else {
        stacked(numbered(links)) + "\nTotal links found: "@ + decimal(links.len()) + "\n"@
    }) + rule_line()
}

/// One item of a list behind its number.
pub fn numbered_item(position: usize, item: &str) -> (line: String)
    requires
        position < usize::MAX,
    ensures
        line@ == decimal((position + 1) as nat) + ". "@ + item@,
{
    let mut line = decimal_string((position + 1) as u128);
    line.append(". ");
    line.append(item);
    line
}

/// An address made of a head, the encoded query and a tail.
fn address(head: &str, query: &str, tail: &str) -> (url: String)
    ensures
        url@ == head@ + query@ + tail@,
{
    let mut url = String::from_str(head);
    url.append(query);
    url.append(tail);
    url
}

/// The addresses at which to search for `query`: the query, percent-encoded,
/// put to two search engines in several variations.
pub fn search_urls(query: &str) -> (urls: Vec<String>)
    ensures
        strings_view(urls@) == search_addresses(percent_encoded(query.spec_bytes())),
{
    let encoded = percent_encode(query);
    let q = encoded.as_str();
    let mut urls: Vec<String> = Vec::new();
    urls.push(address("https://www.google.com/search?q=", q, ""));
    urls.push(address("https://www.google.com/search?q=", q, "&tbm=nws"));
    urls.push(address("https://www.google.com/search?q=", q, "+review"));
    urls.push(address("https://duckduckgo.com/?q=", q, ""));
    urls.push(address("https://duckduckgo.com/?q=", q, "+guide"));
    urls.push(address("https://duckduckgo.com/?q=", q, "&t=h_"));
    urls.push(address("https://duckduckgo.com/?q=", q, "+tutorial"));
    proof {
        reveal_strlit("");
        assert(""@ =~= Seq::<char>::empty());
        assert(strings_view(urls@) =~= search_addresses(encoded@));
    }
    urls
}

/// The addresses at which a plain search for `query` looks: the query,
/// percent-encoded, put to two search engines and an encyclopedia.
pub fn plain_search_urls(query: &str) -> (urls: Vec<String>)
    ensures
        strings_view(urls@) == plain_search_addresses(percent_encoded(query.spec_bytes())),
{
    let encoded = percent_encode(query);
    let q = encoded.as_str();
    let mut urls: Vec<String> = Vec::new();
    urls.push(address("https://www.google.com/search?q=", q, ""));
    urls.push(address("https://en.wikipedia.org/wiki/Special:Search?search=", q, ""));
    urls.push(address("https://duckduckgo.com/?q=", q, ""));
    proof {
        reveal_strlit("");
        assert(""@ =~= Seq::<char>::empty());
        assert(strings_view(urls@) =~= plain_search_addresses(encoded@));
    }
    urls
}

/// The analysis of the page `page`, which was asked for at `url`: a heading,
/// and the text of the page between two rules.
pub fn analysis_report(url: &str, page: &PageContent) -> (lines: Vec<String>)
    ensures
        strings_view(lines@) == analysis_lines(url@, page.text@),
{
    let mut heading = String::from_str("🔍 Analyzing: ");
    heading.append(url);
    let mut lines: Vec<String> = Vec::new();
    lines.push(heading);
    lines.push(String::new());
    lines.push(String::from_str("📚 Content Analysis:"));
    lines.push(String::from_str("──────────────────────────────────────────────────"));
    lines.push(page.text.clone());
    lines.push(String::from_str("──────────────────────────────────────────────────"));
    assert(strings_view(lines@) =~= analysis_lines(url@, page.text@));
    lines
}

/// The findings of a research on `topic` that brought the addresses
/// `search_results`: a heading, the addresses by number, and how many there are.
pub fn research_report(topic: &str, search_results: &Vec<String>) -> (lines: Vec<String>)
    ensures
        strings_view(lines@) == research_lines(topic@, strings_view(search_results@)),
{
    let ghost results = strings_view(search_results@);
    let mut heading = String::from_str("📚 Research Results for: ");
    heading.append(topic);
    let mut lines: Vec<String> = Vec::new();
    lines.push(heading);
    lines.push(String::from_str("──────────────────────────────────────────────────"));
    lines.push(String::from_str("🔍 Search Results:"));
    let ghost head = strings_view(lines@);
    assert(head =~= seq!["📚 Research Results for: "@ + topic@, rule_line(), "🔍 Search Results:"@]);
    for i in 0..search_results.len()
        invariant
            results == strings_view(search_results@),
            lines@.len() == 3 + i,
            strings_view(lines@) == head + numbered(results).take(i as int),
    {
        let ghost before = strings_view(lines@);
        lines.push(numbered_item(i, search_results[i].as_str()));
        assert(strings_view(lines@) =~= before.push(numbered(results)[i as int]));
        assert(head + numbered(results).take(i + 1) =~= (head + numbered(results).take(
            i as int,
        )).push(numbered(results)[i as int]));
    }
    assert(numbered(results).take(search_results.len() as int) =~= numbered(results));
    let ghost middle = strings_view(lines@);
    let mut found = String::from_str("📊 Found ");
    found.append(decimal_string(search_results.len() as u128).as_str());
    found.append(" sources");
    lines.push(String::from_str("──────────────────────────────────────────────────"));
    lines.push(String::from_str("💡 Tip: Click any of these links to read more about the topic"));
    lines.push(found);
    assert(strings_view(lines@) =~= middle + seq![
        rule_line(),
        "💡 Tip: Click any of these links to read more about the topic"@,
        "📊 Found "@ + decimal(results.len()) + " sources"@,
    ]);
    lines
}

/// The report on the links of the page `page`, which was asked for at `url`:
/// the links by number and their count, or a line that says there are none,
/// between two rules.
pub fn links_report(url: &str, page: &PageContent) -> (report: String)
    ensures
        report@ == links_text(url@, strings_view(page.links@)),
{
    let ghost links = strings_view(page.links@);
    let mut report = String::from_str("🔗 Links found on: ");
    report.append(url);
    report.append("\n");
    report.append("──────────────────────────────────────────────────");
    report.append("\n");
    let ghost head = report@;
    if page.links.len() == 0 {
        report.append("No links found on this page.\n");
    } else {
        assert(head + stacked(numbered(links).take(0)) =~= head);
        for i in 0..page.links.len()
            invariant
                links == strings_view(page.links@),
                report@ == head + stacked(numbered(links).take(i as int)),
        {
            proof {
                assert(numbered(links).take(i + 1).drop_last() =~= numbered(links).take(i as int));
                assert(numbered(links).take(i + 1).last() == numbered(links)[i as int]);
            }
            report.append(numbered_item(i, page.links[i].as_str()).as_str());
            report.append("\n");
        }
        assert(numbered(links).take(page.links.len() as int) =~= numbered(links));
        report.append("\nTotal links found: ");
        report.append(decimal_string(page.links.len() as u128).as_str());
        report.append("\n");
    }
    report.append("──────────────────────────────────────────────────");
    report
}

/// How many links a page read as plain text gives at most.
pub const PLAIN_LINK_LIMIT: usize = 20;

/// The title of a page read as plain text: what stands behind the first
/// `<title>`, up to the next `<title>` or `</title>`; none where the page
/// has no `<title>`.
pub open spec fn plain_title(html: Seq<char>) -> Option<Seq<char>> {
    if split_by(html, "<title>"@).len() >= 2 {
        Some(before_first(split_by(html, "<title>"@)[1], "</title>"@))
    } else {
        None
    }
}

/// What a piece of a page that follows a `>` shows: what stands before its
/// first `<`, trimmed.
pub open spec fn shown(piece: Seq<char>) -> Seq<char> {
    trimmed(before_first(piece, "<"@))
}

/// What the pieces of a page show, without the pieces that show nothing.
pub open spec fn shown_texts(pieces: Seq<Seq<char>>) -> Seq<Seq<char>>
    decreases pieces.len(),
{
    if pieces.len() == 0 {
        Seq::empty()
    } else if shown(pieces.last()).len() > 0 {
        shown_texts(pieces.drop_last()).push(shown(pieces.last()))
    } else {
        shown_texts(pieces.drop_last())
    }
}

/// The text of a page read as plain text: what stands between its tags, with
/// a space between the pieces.
pub open spec fn plain_text(html: Seq<char>) -> Seq<char> {
    join(shown_texts(split_by(html, ">"@)), " "@)
}

/// The address that follows a `href="`: what stands before the next
/// quotation mark.
pub open spec fn linked(piece: Seq<char>) -> Seq<char> {
    before_first(piece, "\""@)
}

/// The addresses that follow the `href="` of a page and begin with `http`.
pub open spec fn linked_addresses(pieces: Seq<Seq<char>>) -> Seq<Seq<char>>
    decreases pieces.len(),
{
    if pieces.len() == 0 {
        Seq::empty()
    } else if starts_with(linked(pieces.last()), "http"@) {
        linked_addresses(pieces.drop_last()).push(linked(pieces.last()))
    } else {
        linked_addresses(pieces.drop_last())
    }
}

/// The links of a page read as plain text: the first twenty addresses.
pub open spec fn plain_links(html: Seq<char>) -> Seq<Seq<char>> {
    first_of(linked_addresses(split_by(html, "href=\""@).skip(1)), PLAIN_LINK_LIMIT as nat)
}

/// Reads a page as plain text, without regard to how its tags nest: its
/// title, the text between its tags, and the addresses it links to.
pub fn read_plain_page(final_url: &str, html: &str) -> (page: PageContent)
    ensures
        page.url@ == final_url@,
        match page.title {
            Some(title) => plain_title(html@) == Some(title@),
            None => plain_title(html@) is None,
        },
        page.text@ == plain_text(html@),
        strings_view(page.links@) == plain_links(html@),
{
    let chars = chars_of(html);
    let around_title = split_all(&chars, "<title>");
    let title = if around_title.len() >= 2 {
        assert(lines_view(around_title@)[1] == around_title@[1]@);
        Some(string_from_chars(&take_before(&around_title[1], "</title>")))
    } else {
        None
    };
    let pieces = split_all(&chars, ">");
    let ghost shows = lines_view(pieces@);
    let mut texts: Vec<String> = Vec::new();
    assert(strings_view(texts@) =~= shown_texts(shows.take(0)));
    for i in 0..pieces.len()
        invariant
            shows == lines_view(pieces@),
            strings_view(texts@) == shown_texts(shows.take(i as int)),
    {
        proof {
            assert(shows.take(i + 1).drop_last() == shows.take(i as int));
            assert(shows.take(i + 1).last() == pieces@[i as int]@);
        }
        let content = trim_chars(&take_before(&pieces[i], "<"));
        if content.len() > 0 {
            let ghost before = strings_view(texts@);
            texts.push(string_from_chars(&content));
            assert(strings_view(texts@) =~= before.push(content@));
        }
    }
    assert(shows.take(pieces.len() as int) == shows);
    let text = join_strings(&texts, " ");
    let anchors = split_all(&chars, "href=\"");
    let ghost behind = lines_view(anchors@).skip(1);
    let mut found: Vec<String> = Vec::new();
    assert(strings_view(found@) =~= linked_addresses(behind.take(0)));
    proof {
        assert(split_by(html@, "href=\""@).len() >= 1) by {
            reveal_strlit("href=\"");
        }
    }
    for i in 1..anchors.len()
        invariant
            anchors.len() >= 1,
            behind == lines_view(anchors@).skip(1),
            strings_view(found@) == linked_addresses(behind.take(i - 1)),
    {
        proof {
            assert(behind.take(i as int).drop_last() == behind.take(i - 1));
            assert(behind.take(i as int).last() == anchors@[i as int]@);
        }
        let address = take_before(&anchors[i], "\"");
        if has_prefix(&address, "http") {
            let ghost before = strings_view(found@);
            found.push(string_from_chars(&address));
            assert(strings_view(found@) =~= before.push(address@));
        }
    }
    assert(behind.take(anchors.len() - 1) == behind);
    let links = take_first(&found, PLAIN_LINK_LIMIT);
    PageContent { url: String::from_str(final_url), title, text, links }
}

/// The texts of the elements of the page `html` that the selector `selector`
/// selects, element by element in the order of the page, each with its
/// pieces of text in order; `None` where `selector` is no selector.
pub uninterp spec fn selected_texts(html: Seq<char>, selector: Seq<char>) -> Option<
    Seq<Seq<Seq<char>>>,
>;

/// The values of the attribute `attribute` of the elements of the page
/// `html` that the selector `selector` selects, element by element, `None`
/// for an element without the attribute; `None` where `selector` is no
/// selector.
pub uninterp spec fn selected_attributes(
    html: Seq<char>,
    selector: Seq<char>,
    attribute: Seq<char>,
) -> Option<Seq<Option<Seq<char>>>>;

/// The texts of a list of elements.
pub open spec fn element_texts(elements: Seq<Vec<String>>) -> Seq<Seq<Seq<char>>> {
    Seq::new(elements.len(), |i: int| strings_view(elements[i]@))
}

/// The values of a list of attributes.
pub open spec fn attribute_values(values: Seq<Option<String>>) -> Seq<Option<Seq<char>>> {
    Seq::new(
        values.len(),
        |i: int|
            match values[i] {
                Some(value) => Some(value@),
                None => None,
            },
    )
}

/// Parses the page with `scraper::Html::parse_document` and the selector with
/// `scraper::Selector::parse`, and collects, for each element that
/// `Html::select` gives, the pieces that `ElementRef::text` gives. The
/// contract only names the result: it depends on the two texts alone.
#[verifier::external_body]
fn select_texts(html: &str, selector: &str) -> (found: Option<Vec<Vec<String>>>)
    ensures
        match found {
            Some(elements) => selected_texts(html@, selector@) == Some(element_texts(elements@)),
            None => selected_texts(html@, selector@) is None,
        },
{
    let selector = scraper::Selector::parse(selector).ok()?;
    let document = scraper::Html::parse_document(html);
    Some(document.select(&selector).map(|e| e.text().map(String::from).collect()).collect())
}

/// Parses the page with `scraper::Html::parse_document` and the selector with
/// `scraper::Selector::parse`, and collects, for each element that
/// `Html::select` gives, what `Element::attr` gives for the attribute. The
/// contract only names the result: it depends on the three texts alone.
#[verifier::external_body]
fn select_attributes(html: &str, selector: &str, attribute: &str) -> (found: Option<
    Vec<Option<String>>,
>)
    ensures
        match found {
            Some(values) => selected_attributes(html@, selector@, attribute@) == Some(
                attribute_values(values@),
            ),
            None => selected_attributes(html@, selector@, attribute@) is None,
        },
{
    let selector = scraper::Selector::parse(selector).ok()?;
    let document = scraper::Html::parse_document(html);
    Some(document.select(&selector).map(|e| e.value().attr(attribute).map(String::from)).collect())
}

/// The elements of a selection; none where there is no selection.
pub open spec fn elements_of(selection: Option<Seq<Seq<Seq<char>>>>) -> Seq<Seq<Seq<char>>> {
    match selection {
        Some(elements) => elements,
        None => Seq::empty(),
    }
}

/// The title that a selection of `title` elements gives: the text of the
/// first of them.
pub open spec fn title_of(titles: Seq<Seq<Seq<char>>>) -> Option<Seq<char>> {
    if titles.len() > 0 {
        Some(join(titles[0], Seq::empty()))
    } else {
        None
    }
}

/// The text that a selection of content elements gives: one line for each
/// element that has more than white space, a dash and the element's pieces
/// of text with a space between them.
pub open spec fn content_of(elements: Seq<Seq<Seq<char>>>) -> Seq<char>
    decreases elements.len(),
{
    if elements.len() == 0 {
        Seq::empty()
    } else if trimmed(join(elements.last(), " "@)).len() > 0 {
        content_of(elements.drop_last()) + "- "@ + join(elements.last(), " "@) + "\n"@
    } else {
        content_of(elements.drop_last())
    }
}

/// The links that a selection of `href` values gives: those that begin with
/// `http`.
pub open spec fn links_of(values: Seq<Option<Seq<char>>>) -> Seq<Seq<char>>
    decreases values.len(),
{
    if values.len() == 0 {
        Seq::empty()
    } else {
        match values.last() {
            Some(value) => if starts_with(value, "http"@) {
                links_of(values.drop_last()).push(value)
            } else {
                links_of(values.drop_last())
            },
            None => links_of(values.drop_last()),
        }
    }
}

/// The title of a page whose `title` elements are `titles`.
pub fn page_title(titles: &Vec<Vec<String>>) -> (title: Option<String>)
    ensures
        match title {
            Some(text) => title_of(element_texts(titles@)) == Some(text@),
            None => title_of(element_texts(titles@)) is None,
        },
{
    if titles.len() > 0 {
        proof {
            reveal_strlit("");
            assert(""@ =~= Seq::<char>::empty());
            assert(element_texts(titles@)[0] == strings_view(titles@[0]@));
        }
        Some(join_strings(&titles[0], ""))
    } else {
        None
    }
}

/// The text of a page whose content elements are `elements`.
pub fn page_text(elements: &Vec<Vec<String>>) -> (text: String)
    ensures
        text@ == content_of(element_texts(elements@)),
{
    let ghost all = element_texts(elements@);
    let mut text = String::new();
    assert(text@ =~= content_of(all.take(0)));
    for i in 0..elements.len()
        invariant
            all == element_texts(elements@),
            text@ == content_of(all.take(i as int)),
    {
        proof {
            assert(all.take(i + 1).drop_last() == all.take(i as int));
            assert(all.take(i + 1).last() == strings_view(elements@[i as int]@));
        }
        let joined = join_strings(&elements[i], " ");
        if trim_chars(&chars_of(joined.as_str())).len() > 0 {
            text.append("- ");
            text.append(joined.as_str());
            text.append("\n");
        }
    }
    assert(all.take(elements.len() as int) == all);
    text
}

/// The links of a page whose `href` values are `values`.
pub fn page_links(values: &Vec<Option<String>>) -> (links: Vec<String>)
    ensures
        strings_view(links@) == links_of(attribute_values(values@)),
{
    let ghost all = attribute_values(values@);
    let mut links: Vec<String> = Vec::new();
    assert(strings_view(links@) =~= links_of(all.take(0)));
    for i in 0..values.len()
        invariant
            all == attribute_values(values@),
            strings_view(links@) == links_of(all.take(i as int)),
    {
        proof {
            assert(all.take(i + 1).drop_last() == all.take(i as int));
            assert(all.take(i + 1).last() == all[i as int]);
        }
        match &values[i] {
            Some(value) => {
                if has_prefix(&chars_of(value.as_str()), "http") {
                    let ghost before = strings_view(links@);
                    links.push(value.clone());
                    assert(strings_view(links@) =~= before.push(value@));
                }
            },
            None => {},
        }
    }
    assert(all.take(values.len() as int) == all);
    links
}

/// Reads a page by its elements: the text of its first `title` element, a
/// line for each paragraph, heading, list and list item, and the addresses
/// of its links that begin with `http`.
pub fn read_page(final_url: &str, html: &str) -> (page: PageContent)
    ensures
        page.url@ == final_url@,
        match page.title {
            Some(title) => title_of(elements_of(selected_texts(html@, "title"@))) == Some(title@),
            None => title_of(elements_of(selected_texts(html@, "title"@))) is None,
        },
        page.text@ == content_of(
            elements_of(selected_texts(html@, "p, h1, h2, h3, ul, ol, li"@)),
        ),
        strings_view(page.links@) == links_of(
            match selected_attributes(html@, "a[href]"@, "href"@) {
                Some(values) => values,
                None => Seq::empty(),
            },
        ),
{
    let title = match select_texts(html, "title") {
        Some(titles) => page_title(&titles),
        None => None,
    };
    let text = match select_texts(html, "p, h1, h2, h3, ul, ol, li") {
        Some(elements) => page_text(&elements),
        None => String::new(),
    };
    let links = match select_attributes(html, "a[href]", "href") {
        Some(values) => page_links(&values),
        None => {
            let none: Vec<String> = Vec::new();
            assert(strings_view(none@) =~= Seq::<Seq<char>>::empty());
            none
        },
    };
    PageContent { url: String::from_str(final_url), title, text, links }
}

} // verus!
