//! Fetching one source, normalized: the raw item shapes that the RSS and
//! Atom parsers hand over, and their normalization into canonical
//! entries with a usable sort key and a display date.

use vstd::prelude::*;
use vstd::string::{StrSliceExecFns, StringExecFns};
use crate::entry::Entry;
use crate::translate::strip_prefix_all;
use crate::text::str_chars;

verus! {

/// One RSS item as the parser hands it over, fields as in the document.
pub struct RssItem {
    pub title: Option<String>,
    pub link: Option<String>,
    pub pub_date: Option<String>,
    pub author: Option<String>,
    pub dc_creators: Vec<String>,
}

/// The mathematical shape of one raw RSS item.
pub ghost struct RssItemView {
    pub title: Option<Seq<char>>,
    pub link: Option<Seq<char>>,
    pub pub_date: Option<Seq<char>>,
    pub author: Option<Seq<char>>,
    pub dc_creators: Seq<Seq<char>>,
}

impl View for RssItem {
    type V = RssItemView;

    open spec fn view(&self) -> RssItemView {
        RssItemView {
            title: match self.title {
                Some(ref t) => Some(t@),
                None => None,
            },
            link: match self.link {
                Some(ref l) => Some(l@),
                None => None,
            },
            pub_date: match self.pub_date {
                Some(ref d) => Some(d@),
                None => None,
            },
            author: match self.author {
                Some(ref a) => Some(a@),
                None => None,
            },
            dc_creators: self.dc_creators@.map_values(|s: String| s@),
        }
    }
}

/// One Atom entry as the parser hands it over: dates already parsed by
/// the crate, links as (relation, target) pairs.
pub struct AtomRawEntry {
    pub title: String,
    pub links: Vec<(String, String)>,
    pub published: Option<i64>,
    pub updated: i64,
    pub authors: Vec<String>,
}

/// The mathematical shape of one raw Atom entry.
pub ghost struct AtomEntryView {
    pub title: Seq<char>,
    pub links: Seq<(Seq<char>, Seq<char>)>,
    pub published: Option<int>,
    pub updated: int,
    pub authors: Seq<Seq<char>>,
}

impl View for AtomRawEntry {
    type V = AtomEntryView;

    open spec fn view(&self) -> AtomEntryView {
        AtomEntryView {
            title: self.title@,
            links: self.links@.map_values(|p: (String, String)| (p.0@, p.1@)),
            published: match self.published {
                Some(t) => Some(t as int),
                None => None,
            },
            updated: self.updated as int,
            authors: self.authors@.map_values(|s: String| s@),
        }
    }
}

/// The items that the RSS parser reads from a document, or nothing if
/// the document is not an RSS channel.
pub uninterp spec fn rss_items_of(s: Seq<char>) -> Option<Seq<RssItemView>>;

/// Relies on rss::Channel::read_from: whether a document parses as an
/// RSS channel, and which items it holds, is a function of its text
/// alone; the wrapper copies each item's title, link, publish date,
/// author and Dublin-Core creators out as plain strings.
#[verifier::external_body]
fn parse_rss(body: &str) -> (r: Option<Vec<RssItem>>)
    ensures
        (match r {
            Some(v) => Some(v@.map_values(|it: RssItem| it@)),
            None => None,
        }) == rss_items_of(body@),
{
    let channel = match rss::Channel::read_from(body.as_bytes()) {
        Ok(c) => c,
        Err(_) => return None,
    };
    let items = channel.items().iter().map(|it| RssItem {
        title: it.title().map(str::to_string),
        link: it.link().map(str::to_string),
        pub_date: it.pub_date().map(str::to_string),
        author: it.author().map(str::to_string),
        dc_creators: it.dublin_core_ext().map(|d| d.creators().to_vec()).unwrap_or_default(),
    }).collect();
    Some(items)
}

/// The entries that the Atom parser reads from a document, or nothing
/// if the document is not an Atom feed.
pub uninterp spec fn atom_entries_of(s: Seq<char>) -> Option<Seq<AtomEntryView>>;

/// Relies on atom_syndication::Feed's FromStr: whether a document
/// parses as an Atom feed, and which entries it holds, is a function of
/// its text alone; the wrapper copies each entry's title, links,
/// publish and update times (as epoch seconds, parsed by the crate) and
/// author names out as plain values.
#[verifier::external_body]
fn parse_atom(body: &str) -> (r: Option<Vec<AtomRawEntry>>)
    ensures
        (match r {
            Some(v) => Some(v@.map_values(|e: AtomRawEntry| e@)),
            None => None,
        }) == atom_entries_of(body@),
{
    let feed: atom_syndication::Feed = match body.parse() {
        Ok(f) => f,
        Err(_) => return None,
    };
    let entries = feed.entries.iter().map(|e| AtomRawEntry {
        title: e.title.value.clone(),
        links: e.links.iter().map(|l| (l.rel.clone(), l.href.clone())).collect(),
        published: e.published.map(|d| d.timestamp()),
        updated: e.updated.timestamp(),
        authors: e.authors.iter().map(|p| p.name.clone()).collect(),
    }).collect();
    Some(entries)
}

/// The epoch second that an RFC-2822 date string denotes, if it parses.
pub uninterp spec fn rfc2822_epoch(s: Seq<char>) -> Option<int>;

/// Relies on chrono's DateTime::parse_from_rfc2822: the parse result,
/// and its epoch second, are a function of the text alone.
#[verifier::external_body]
fn parse_rfc2822(s: &str) -> (r: Option<i64>)
    ensures
        (match r {
            Some(t) => Some(t as int),
            None => None,
        }) == rfc2822_epoch(s@),
{
    chrono::DateTime::parse_from_rfc2822(s).map(|dt| dt.timestamp()).ok()
}

/// A point of local calendar time.
#[derive(Clone, Copy, Debug, PartialEq, Eq, Structural)]
pub struct DateParts {
    pub year: i32,
    pub month: u8,
    pub day: u8,
    pub hour: u8,
    pub minute: u8,
}

/// A calendar point the formatter can render.
pub open spec fn valid_parts(p: DateParts) -> bool {
    &&& 1 <= p.month <= 12
    &&& 1 <= p.day <= 31
    &&& p.hour < 24
    &&& p.minute < 60
}

/// Relies on chrono's Local time zone: breaking an epoch second into
/// local calendar parts depends on the machine's time zone, so nothing
/// is promised of the values beyond their calendar ranges; an epoch
/// outside chrono's range yields nothing.
#[verifier::external_body]
fn local_date_parts(epoch: i64) -> (r: Option<DateParts>)
    ensures
        r matches Some(p) ==> valid_parts(p),
{
    match chrono::TimeZone::timestamp_opt(&chrono::Local, epoch, 0) {
        chrono::LocalResult::Single(dt) | chrono::LocalResult::Ambiguous(dt, _) => {
            Some(DateParts {
                year: chrono::Datelike::year(&dt),
                month: chrono::Datelike::month(&dt) as u8,
                day: chrono::Datelike::day(&dt) as u8,
                hour: chrono::Timelike::hour(&dt) as u8,
                minute: chrono::Timelike::minute(&dt) as u8,
            })
        },
        chrono::LocalResult::None => None,
    }
}

/// The decimal digit character for a value below ten.
pub open spec fn dec_digit(n: int) -> char {
    seq!['0', '1', '2', '3', '4', '5', '6', '7', '8', '9'][n]
}

/// A value below one hundred, zero-padded to two digits.
pub open spec fn two_digits(n: int) -> Seq<char> {
    seq![dec_digit(n / 10), dec_digit(n % 10)]
}

/// The English three-letter month name.
pub open spec fn month_abbrev(m: int) -> Seq<char> {
    if m == 1 { "Jan"@ } else if m == 2 { "Feb"@ } else if m == 3 { "Mar"@ }
    else if m == 4 { "Apr"@ } else if m == 5 { "May"@ } else if m == 6 { "Jun"@ }
    else if m == 7 { "Jul"@ } else if m == 8 { "Aug"@ } else if m == 9 { "Sep"@ }
    else if m == 10 { "Oct"@ } else if m == 11 { "Nov"@ } else { "Dec"@ }
}

/// What the display date says: the clock alone on the local calendar
/// date of today, else month, day and clock.
pub open spec fn spec_display_date(p: DateParts, today: DateParts) -> Seq<char> {
    let clock = two_digits(p.hour as int) + seq![':'] + two_digits(p.minute as int);
    if p.year == today.year && p.month == today.month && p.day == today.day {
        clock
    } else {
        month_abbrev(p.month as int) + seq![' '] + two_digits(p.day as int) + seq![',', ' ']
            + clock
    }
}

fn push_two_digits(out: &mut Vec<char>, n: u8)
    requires
        n < 100,
    ensures
        final(out)@ == old(out)@ + two_digits(n as int),
{
    let digits: [char; 10] = ['0', '1', '2', '3', '4', '5', '6', '7', '8', '9'];
    let hi = (n / 10) as usize;
    let lo = (n % 10) as usize;
    out.push(digits[hi]);
    out.push(digits[lo]);
    proof {
        assert(digits@[hi as int] == dec_digit(n as int / 10));
        assert(digits@[lo as int] == dec_digit(n as int % 10));
        assert(out@ =~= old(out)@ + two_digits(n as int));
    }
}

/// Renders the display date for an entry published at local time `p`,
/// given today's local date.
pub fn format_display_date(p: DateParts, today: DateParts) -> (r: String)
    requires
        valid_parts(p),
    ensures
        r@ == spec_display_date(p, today),
{
    let mut out: Vec<char> = Vec::new();
    if p.year == today.year && p.month == today.month && p.day == today.day {
        push_two_digits(&mut out, p.hour);
        out.push(':');
        push_two_digits(&mut out, p.minute);
        proof {
            assert(out@ =~= spec_display_date(p, today));
        }
    } else {
        let months: [&'static str; 12] = ["Jan", "Feb", "Mar", "Apr", "May", "Jun", "Jul",
            "Aug", "Sep", "Oct", "Nov", "Dec"];
        let name = months[(p.month - 1) as usize];
        let cs = str_chars(name);
        let mut j: usize = 0;
        while j < cs.len()
            invariant
                j <= cs@.len(),
                cs@ == months@[p.month - 1]@,
                out@ == cs@.take(j as int),
            decreases cs@.len() - j,
        {
            out.push(cs[j]);
            proof {
                assert(cs@.take(j as int + 1) =~= cs@.take(j as int).push(cs@[j as int]));
            }
            j = j + 1;
        }
        proof {
            assert(cs@.take(cs@.len() as int) =~= cs@);
            assert(months@[p.month - 1]@ == month_abbrev(p.month as int));
        }
        out.push(' ');
        push_two_digits(&mut out, p.day);
        out.push(',');
        out.push(' ');
        push_two_digits(&mut out, p.hour);
        out.push(':');
        push_two_digits(&mut out, p.minute);
        proof {
            assert(out@ =~= spec_display_date(p, today));
        }
    }
    crate::text::chars_to_string(&out)
}

/// A display date is well formed: rendered from some valid calendar
/// point, or blank where the epoch was out of the calendar's range.
pub open spec fn date_ok(d: Seq<char>, today: DateParts) -> bool {
    ||| exists|p: DateParts| valid_parts(p) && d == spec_display_date(p, today)
    ||| d == Seq::<char>::empty()
}

/// The sort key an RSS item gets: its parsed publish date, or the
/// fetch moment where the date is absent or malformed.
pub open spec fn rss_timestamp(it: RssItemView, now: int) -> int {
    let ds = match it.pub_date {
        Some(d) => d,
        None => Seq::<char>::empty(),
    };
    match rfc2822_epoch(ds) {
        Some(t) => t,
        None => now,
    }
}

/// How one canonical entry relates to the raw RSS item it came from.
pub open spec fn rss_entry_ok(
    it: RssItemView,
    e: Entry,
    source: Seq<char>,
    show_author: bool,
    now: int,
    today: DateParts,
) -> bool {
    &&& e.timestamp == rss_timestamp(it, now)
    &&& e.id == e.timestamp
    &&& e.title@ == (match it.title {
        Some(t) => t,
        None => "(No title)"@,
    })
    &&& e.url@ == (match it.link {
        Some(l) => l,
        None => Seq::<char>::empty(),
    })
    &&& e.source_name@ == (if show_author {
        match it.author {
            Some(a) => a,
            None => if it.dc_creators.len() > 0 {
                it.dc_creators[0]
            } else {
                source
            },
        }
    } else {
        source
    })
    &&& date_ok(e.pub_date@, today)
    &&& e.title_original is None
}

/// Normalizes the raw RSS items of one source into canonical entries.
pub fn normalize_rss_items(
    items: &Vec<RssItem>,
    source_name: &String,
    show_author: bool,
    now: i64,
    today: DateParts,
) -> (r: Vec<Entry>)
    ensures
        r@.len() == items@.len(),
        forall|i: int|
            0 <= i < items@.len() ==> rss_entry_ok(
                items@[i]@,
                r@[i],
                source_name@,
                show_author,
                now as int,
                today,
            ),
{
    let mut out: Vec<Entry> = Vec::new();
    let mut i: usize = 0;
    while i < items.len()
        invariant
            i <= items@.len(),
            out@.len() == i,
            forall|j: int|
                0 <= j < i ==> rss_entry_ok(
                    items@[j]@,
                    out@[j],
                    source_name@,
                    show_author,
                    now as int,
                    today,
                ),
        decreases items@.len() - i,
    {
        let it = &items[i];
        let title = match &it.title {
            Some(t) => t.clone(),
            None => String::from_str("(No title)"),
        };
        let url = match &it.link {
            Some(l) => l.clone(),
            None => String::new(),
        };
        let empty_date = String::new();
        let date_str = match &it.pub_date {
            Some(d) => d,
            None => &empty_date,
        };
        let timestamp = match parse_rfc2822(date_str.as_str()) {
            Some(t) => t,
            None => now,
        };
        let pub_date = match local_date_parts(timestamp) {
            Some(p) => format_display_date(p, today),
            None => String::new(),
        };
        let source = if show_author {
            match &it.author {
                Some(a) => a.clone(),
                None => {
                    if it.dc_creators.len() > 0 {
                        it.dc_creators[0].clone()
                    } else {
                        source_name.clone()
                    }
                },
            }
        } else {
            source_name.clone()
        };
        out.push(
            Entry {
                id: timestamp,
                source_name: source,
                pub_date,
                timestamp,
                url,
                title,
                title_original: None,
            },
        );
        i = i + 1;
    }
    out
}

/// The target an Atom entry links to: the first link whose relation is
/// "alternate", else the first link, else nothing.
pub open spec fn find_alternate(links: Seq<(Seq<char>, Seq<char>)>) -> Option<Seq<char>>
    decreases links.len(),
{
    if links.len() == 0 {
        None
    } else if links[0].0 == "alternate"@ {
        Some(links[0].1)
    } else {
        find_alternate(links.drop_first())
    }
}

/// The link an Atom entry displays.
pub open spec fn atom_link(links: Seq<(Seq<char>, Seq<char>)>) -> Seq<char> {
    match find_alternate(links) {
        Some(href) => href,
        None => if links.len() > 0 {
            links[0].1
        } else {
            Seq::<char>::empty()
        },
    }
}

/// The sort key an Atom entry gets: its publish time, else its update
/// time.
pub open spec fn atom_timestamp(e: AtomEntryView) -> int {
    match e.published {
        Some(t) => t,
        None => e.updated,
    }
}

/// How one canonical entry relates to the raw Atom entry it came from.
pub open spec fn atom_entry_ok(
    it: AtomEntryView,
    e: Entry,
    source: Seq<char>,
    show_author: bool,
    today: DateParts,
) -> bool {
    &&& e.timestamp == atom_timestamp(it)
    &&& e.id == e.timestamp
    &&& e.title@ == (if it.title.len() == 0 {
        "(No title)"@
    } else {
        it.title
    })
    &&& e.url@ == atom_link(it.links)
    &&& e.source_name@ == (if show_author {
        if it.authors.len() > 0 {
            strip_prefix_all(it.authors[0], "/u/"@)
        } else {
            source
        }
    } else {
        source
    })
    &&& date_ok(e.pub_date@, today)
    &&& e.title_original is None
}

/// Picks the link of one raw Atom entry.
fn pick_atom_link(links: &Vec<(String, String)>) -> (r: String)
    ensures
        r@ == atom_link(links@.map_values(|p: (String, String)| (p.0@, p.1@))),
{
    let ghost lv = links@.map_values(|p: (String, String)| (p.0@, p.1@));
    let n = links.len();
    let mut i: usize = 0;
    proof {
        assert(lv.skip(0) =~= lv);
    }
    while i < n
        invariant
            i <= n,
            n == links@.len(),
            lv == links@.map_values(|p: (String, String)| (p.0@, p.1@)),
            find_alternate(lv) == find_alternate(lv.skip(i as int)),
        decreases n - i,
    {
        proof {
            assert(lv.skip(i as int)[0] == lv[i as int]);
            assert(lv.skip(i as int).drop_first() =~= lv.skip(i as int + 1));
        }
        if str_eq(links[i].0.as_str(), "alternate") {
            return links[i].1.clone();
        }
        i = i + 1;
    }
    proof {
        assert(lv.skip(n as int).len() == 0);
        assert(find_alternate(lv) is None);
    }
    if links.len() > 0 {
        links[0].1.clone()
    } else {
        String::new()
    }
}

/// Whether two strings hold the same text.
fn str_eq(a: &str, b: &str) -> (r: bool)
    ensures
        r == (a@ == b@),
{
    let va = str_chars(a);
    let vb = str_chars(b);
    crate::html::chars_eq(&va, &vb)
}

/// Normalizes the raw Atom entries of one source into canonical
/// entries.
pub fn normalize_atom_entries(
    items: &Vec<AtomRawEntry>,
    source_name: &String,
    show_author: bool,
    today: DateParts,
) -> (r: Vec<Entry>)
    ensures
        r@.len() == items@.len(),
        forall|i: int|
            0 <= i < items@.len() ==> atom_entry_ok(
                items@[i]@,
                r@[i],
                source_name@,
                show_author,
                today,
            ),
{
    let mut out: Vec<Entry> = Vec::new();
    let mut i: usize = 0;
    while i < items.len()
        invariant
            i <= items@.len(),
            out@.len() == i,
            forall|j: int|
                0 <= j < i ==> atom_entry_ok(
                    items@[j]@,
                    out@[j],
                    source_name@,
                    show_author,
                    today,
                ),
        decreases items@.len() - i,
    {
        let it = &items[i];
        let title = if it.title.as_str().unicode_len() == 0 {
            String::from_str("(No title)")
        } else {
            it.title.clone()
        };
        let url = pick_atom_link(&it.links);
        let timestamp = match it.published {
            Some(t) => t,
            None => it.updated,
        };
        let pub_date = match local_date_parts(timestamp) {
            Some(p) => format_display_date(p, today),
            None => String::new(),
        };
        let source = if show_author {
            if it.authors.len() > 0 {
                strip_author_marker(&it.authors[0])
            } else {
                source_name.clone()
            }
        } else {
            source_name.clone()
        };
        out.push(
            Entry {
                id: timestamp,
                source_name: source,
                pub_date,
                timestamp,
                url,
                title,
                title_original: None,
            },
        );
        i = i + 1;
    }
    out
}

/// Strips the leading `/u/` author marker that some feeds prepend.
fn strip_author_marker(name: &String) -> (r: String)
    ensures
        r@ == strip_prefix_all(name@, "/u/"@),
{
    proof {
        reveal_strlit("/u/");
    }
    let cs = str_chars(name.as_str());
    let pat = str_chars("/u/");
    let stripped = crate::translate::strip_prefix_all_chars(&cs, &pat);
    crate::text::chars_to_string(&stripped)
}

/// A document that matched neither feed format.
#[derive(Clone, Copy, Debug, PartialEq, Eq, Structural)]
pub enum FeedError {
    ParseError,
}

/// Normalizes one fetched document: tried as RSS first, then as Atom;
/// a document matching neither format yields a parse error and no
/// partial entries.
pub fn entries_from_body(
    body: &str,
    source_name: &String,
    show_author: bool,
    now: i64,
    today: DateParts,
) -> (r: Result<Vec<Entry>, FeedError>)
    ensures
        (match rss_items_of(body@) {
            Some(items) => r matches Ok(es) && es@.len() == items.len() && (forall|i: int|
                0 <= i < items.len() ==> rss_entry_ok(
                    items[i],
                    es@[i],
                    source_name@,
                    show_author,
                    now as int,
                    today,
                )),
            None => match atom_entries_of(body@) {
                Some(items) => r matches Ok(es) && es@.len() == items.len() && (forall|i: int|
                    0 <= i < items.len() ==> atom_entry_ok(
                        items[i],
                        es@[i],
                        source_name@,
                        show_author,
                        today,
                    )),
                None => r == Result::<Vec<Entry>, FeedError>::Err(FeedError::ParseError),
            },
        }),
{
    match parse_rss(body) {
        Some(items) => {
            proof {
                assert(forall|i: int|
                    0 <= i < items@.len() ==> rss_items_of(body@).unwrap()[i] == items@[i]@);
            }
            Ok(normalize_rss_items(&items, source_name, show_author, now, today))
        },
        None => {
            match parse_atom(body) {
                Some(items) => {
                    proof {
                        assert(forall|i: int|
                            0 <= i < items@.len() ==> atom_entries_of(body@).unwrap()[i]
                                == items@[i]@);
                    }
                    Ok(normalize_atom_entries(&items, source_name, show_author, today))
                },
                None => Err(FeedError::ParseError),
            }
        },
    }
}

} // verus!
