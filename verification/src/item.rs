//! One entry of the news feed: what it holds, when two entries are the same
//! entry, how an entry is announced, and when it is fresh.

use vstd::prelude::*;
use vstd::string::StringExecFns;
use vstd::std_specs::cmp::PartialEqSpecImpl;
use crate::clock::{fresh_at, instant_from_stamp, instant_of, wall_clock, within_window};
use crate::platforms::{ascending, same_text, PlatformSet};
use crate::text::{decimal_digits, push_decimal};

verus! {

/// What an entry of the feed holds.
pub struct ItemView {
    /// The number that identifies the entry.
    pub id: u64,
    /// Its headline.
    pub title: Seq<char>,
    /// Its summary.
    pub summary: Seq<char>,
    /// The codes of the platforms it is published for, ascending.
    pub platforms: Seq<Seq<char>>,
    /// The time stamp of its last update, where the feed gave one.
    pub updated: Option<Seq<char>>,
}

/// The path that the links of a platform carry: one for `ps`, one for `xbox`,
/// none for any other code.
pub open spec fn platform_path(code: Seq<char>) -> Seq<char> {
    if code == "ps"@ {
        "/playstation"@
    } else if code == "xbox"@ {
        "/xbox"@
    } else {
        Seq::empty()
    }
}

/// The line that links to an entry on the pages of one platform.
pub open spec fn platform_link(code: Seq<char>, id: u64) -> Seq<char> {
    "<https://www.arcgames.com/en/games"@ + platform_path(code)
        + "/star-trek-online/news/detail/"@ + decimal_digits(id as nat) + ">\n"@
}

/// The link lines of several platforms, in their order.
pub open spec fn platform_links(codes: Seq<Seq<char>>, id: u64) -> Seq<char>
    decreases codes.len(),
{
    if codes.len() == 0 {
        Seq::empty()
    } else {
        platform_links(codes.drop_last(), id) + platform_link(codes.last(), id)
    }
}

/// What every announcement begins with: the headline in bold, the summary,
/// and the link to the article.
pub open spec fn article_lines(title: Seq<char>, summary: Seq<char>, id: u64) -> Seq<char> {
    "**"@ + title + "**\n"@ + summary + "\n<https://playstartrekonline.com/en/news/article/"@
        + decimal_digits(id as nat) + ">\n"@
}

/// The message that announces an entry.
pub open spec fn message_text(item: ItemView) -> Seq<char> {
    article_lines(item.title, item.summary, item.id) + platform_links(item.platforms, item.id)
}

/// The instant of an entry's last update, where its time stamp names one.
pub open spec fn updated_instant(item: ItemView) -> Option<i64> {
    match item.updated {
        Some(stamp) => instant_of(stamp),
        None => None,
    }
}

/// Whether an entry is fresh at `now`: its last update lies no more than
/// `window` seconds from `now`. An entry without a time stamp that can be
/// read is never fresh.
pub open spec fn item_fresh_at(item: ItemView, now: i64, window: u64) -> bool {
    fresh_at(updated_instant(item), now, window)
}

/// One entry of the news feed.
#[derive(Debug)]
pub struct NewsItem {
    id: u64,
    title: String,
    summary: String,
    platforms: PlatformSet,
    updated: Option<String>,
}

impl View for NewsItem {
    type V = ItemView;

    closed spec fn view(&self) -> ItemView {
        ItemView {
            id: self.id,
            title: self.title@,
            summary: self.summary@,
            platforms: self.platforms@,
            updated: match self.updated {
                Some(stamp) => Some(stamp@),
                None => None,
            },
        }
    }
}

impl PartialEq for NewsItem {
    /// Two entries are the same entry when they carry the same number,
    /// whatever else they hold.
    fn eq(&self, other: &Self) -> (same: bool) {
        self.id == other.id
    }
}

impl PartialEqSpecImpl for NewsItem {
    open spec fn obeys_eq_spec() -> bool {
        true
    }

    open spec fn eq_spec(&self, other: &Self) -> bool {
        self@.id == other@.id
    }
}

impl NewsItem {
    /// The platform codes stand in ascending order, none twice.
    pub open spec fn wf(&self) -> bool {
        ascending(self@.platforms)
    }

    /// An entry with the given contents. The platforms may be named in any
    /// order and more than once.
    pub fn new(
        id: u64,
        title: String,
        summary: String,
        platforms: Vec<String>,
        updated: Option<String>,
    ) -> (item: NewsItem)
        ensures
            item.wf(),
            item@.id == id,
            item@.title == title@,
            item@.summary == summary@,
            item@.platforms == crate::platforms::with_names(
                Seq::empty(),
                crate::platforms::texts(platforms@),
            ),
            item@.platforms.to_set() == crate::platforms::texts(platforms@).to_set(),
            item@.updated == match updated {
                Some(stamp) => Some(stamp@),
                None => None,
            },
    {
        let platforms = PlatformSet::from_names(platforms);
        NewsItem { id, title, summary, platforms, updated }
    }

    /// The number that identifies the entry.
    pub fn get_id(&self) -> (id: u64)
        ensures
            id == self@.id,
    {
        self.id
    }

    /// The headline.
    pub fn title(&self) -> (title: &String)
        ensures
            title@ == self@.title,
    {
        &self.title
    }

    /// The summary.
    pub fn summary(&self) -> (summary: &String)
        ensures
            summary@ == self@.summary,
    {
        &self.summary
    }

    /// The platforms that the entry is published for.
    pub fn platforms(&self) -> (platforms: &PlatformSet)
        ensures
            platforms@ == self@.platforms,
    {
        &self.platforms
    }

    /// The time stamp of the last update, as the feed gave it.
    pub fn updated(&self) -> (updated: &Option<String>)
        ensures
            match *updated {
                Some(stamp) => self@.updated == Some(stamp@),
                None => self@.updated is None,
            },
    {
        &self.updated
    }

    /// The message that announces the entry: the headline in bold, the
    /// summary, the link to the article, and one link for each platform.
    pub fn get_msg_str(&self) -> (message: String)
        ensures
            message@ == message_text(self@),
    {
        let mut message = String::new();
        message.append("**");
        message.append(self.title.as_str());
        message.append("**\n");
        message.append(self.summary.as_str());
        message.append("\n<https://playstartrekonline.com/en/news/article/");
        push_decimal(&mut message, self.id);
        message.append(">\n");
        assert(message@ =~= article_lines(self@.title, self@.summary, self@.id));
        let ghost head = message@;
        let ghost codes = self@.platforms;
        let count = self.platforms.len();
        let mut i: usize = 0;
        assert(codes.take(0) =~= Seq::<Seq<char>>::empty());
        assert(message@ =~= head + platform_links(codes.take(0), self.id));
        while i < count
            invariant
                i <= count,
                count == codes.len(),
                codes == self.platforms@,
                message@ == head + platform_links(codes.take(i as int), self.id),
            decreases count - i,
        {
            let ghost before = message@;
            let code = self.platforms.name(i);
            message.append("<https://www.arcgames.com/en/games");
            if same_text(code.as_str(), "ps") {
                message.append("/playstation");
            } else if same_text(code.as_str(), "xbox") {
                message.append("/xbox");
            }
            message.append("/star-trek-online/news/detail/");
            push_decimal(&mut message, self.id);
            message.append(">\n");
            proof {
                assert(codes.take(i + 1).drop_last() =~= codes.take(i as int));
                assert(codes.take(i + 1).last() == code@);
                assert(message@ =~= before + platform_link(code@, self.id));
                assert(message@ =~= head + platform_links(codes.take(i + 1), self.id));
            }
            i = i + 1;
        }
        assert(codes.take(count as int) =~= codes);
        message
    }

    /// The instant of the last update, where the time stamp names one.
    pub fn updated_at(&self) -> (instant: Option<i64>)
        ensures
            instant == updated_instant(self@),
    {
        match &self.updated {
            Some(stamp) => instant_from_stamp(stamp.as_str()),
            None => None,
        }
    }

    /// Whether the entry is fresh at the instant `now`, given in seconds
    /// since the epoch: its last update lies no more than `diff_threshold`
    /// seconds from `now`.
    pub fn is_fresh_at(&self, now: i64, diff_threshold: u64) -> (fresh: bool)
        ensures
            fresh == item_fresh_at(self@, now, diff_threshold),
    {
        within_window(self.updated_at(), now, diff_threshold)
    }

    /// Whether the entry is fresh by the wall clock. Whatever the clock
    /// shows, an entry whose time stamp names no instant is not fresh.
    pub fn is_fresh(&self, diff_threshold: u64) -> (fresh: bool)
        ensures
            exists|now: i64| fresh == item_fresh_at(self@, now, diff_threshold),
            updated_instant(self@) is None ==> !fresh,
    {
        let now = wall_clock();
        let fresh = self.is_fresh_at(now, diff_threshold);
        assert(fresh == item_fresh_at(self@, now, diff_threshold));
        fresh
    }
}

} // verus!
