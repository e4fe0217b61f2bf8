//! The handler: the settings of a run, the registered channels, the two chat
//! commands, and what each channel is sent after a poll.

use vstd::prelude::*;
use vstd::string::StringExecFns;
use std::collections::HashSet;
use crate::clock::wall_clock;
use crate::history::{get_ids_from_messages, message_texts, posted_ids};
use crate::item::{ItemView, NewsItem};
use crate::news::{due_places, kept, FetchError, News};
use crate::platforms::{same_text, texts, with_names, PlatformSet};
use crate::poll::{accepted, fetched_view};
use crate::registry::{channel_file, listed_ids, with_id, with_ids, without_id, Registry};
use crate::text::{decimal_digits, push_decimal};

verus! {

broadcast use vstd::std_specs::hash::group_hash_axioms;

/// What a chat message can ask of the handler.
#[derive(Clone, Copy, Debug, PartialEq, Eq, Structural)]
pub enum Command {
    /// Register the channel that the message was written in.
    Register,
    /// Unregister the channel that the message was written in.
    Unregister,
}

/// The command that a message is. Only a message that consists of the
/// keyword, and of nothing else, is one.
pub open spec fn command_of(content: Seq<char>) -> Option<Command> {
    if content == "!stobot"@ {
        Some(Command::Register)
    } else if content == "!unstobot"@ {
        Some(Command::Unregister)
    } else {
        None
    }
}

/// The channels once a command from the channel `id` has been carried out.
pub open spec fn channels_after(channels: Seq<u64>, command: Command, id: u64) -> Seq<u64> {
    match command {
        Command::Register => with_id(channels, id),
        Command::Unregister => without_id(channels, id),
    }
}

/// The numerals of the channels, a space before each.
pub open spec fn spaced(ids: Seq<u64>) -> Seq<char>
    decreases ids.len(),
{
    if ids.len() == 0 {
        Seq::empty()
    } else {
        spaced(ids.drop_last()) + " "@ + decimal_digits(ids.last() as nat)
    }
}

/// The line that lists the registered channels.
pub open spec fn listing_text(ids: Seq<u64>) -> Seq<char> {
    "Registered channels:"@ + spaced(ids)
}

/// The line that records a command.
pub open spec fn notice_text(command: Command, id: u64) -> Seq<char> {
    match command {
        Command::Register => "Registered channel with ID "@ + decimal_digits(id as nat),
        Command::Unregister => "Removed channel with ID "@ + decimal_digits(id as nat),
    }
}

/// The sentence that confirms a command.
pub open spec fn response_text(command: Command) -> Seq<char> {
    match command {
        Command::Register => "This channel will now have STO news posted."@,
        Command::Unregister => "This channel will no longer have STO news posted."@,
    }
}

/// What the channel is told in answer to a command: the sentence that
/// confirms it and, on a line of its own, the channels that are registered
/// once it has been carried out.
pub open spec fn answer_text(command: Command, after: Seq<u64>) -> Seq<char> {
    response_text(command) + "\n"@ + listing_text(after)
}

/// The channel file could not be written.
#[derive(Clone, Copy, Debug, PartialEq, Eq, Structural)]
pub struct PersistenceError;

/// The address that gives the newest `count` entries of the feed, with
/// their platforms and the time of their last update.
pub open spec fn feed_address(count: u64) -> Seq<char> {
    "https://api.arcgames.com/v1.0/games/sto/news?limit="@ + decimal_digits(count as nat)
        + "&field[]=platforms&field[]=updated"@
}

/// The address that gives the newest `count` entries of the feed.
pub fn feed_url(count: u64) -> (url: String)
    ensures
        url@ == feed_address(count),
{
    let mut url = String::from_str("https://api.arcgames.com/v1.0/games/sto/news?limit=");
    push_decimal(&mut url, count);
    url.append("&field[]=platforms&field[]=updated");
    url
}

/// What is to be done about a command: the file is written first, and only
/// when that has succeeded is the command carried out and answered.
#[derive(Debug)]
pub struct Reply {
    /// The command.
    pub command: Command,
    /// The text that the channel file is to hold.
    pub file: String,
    /// The line that records the command.
    pub notice: String,
    /// The line that lists the channels as they will be.
    pub listing: String,
    /// The answer to the channel: the confirmation, and the channels as
    /// they will be.
    pub response: String,
}

/// What a handler holds.
pub struct HandlerView {
    /// The seconds between two polls.
    pub poll_period: u64,
    /// How many entries each poll asks for.
    pub poll_count: u64,
    /// The registered channels, in the order of registration.
    pub channels: Seq<u64>,
    /// Where the channel file lies.
    pub channel_txt_path: Seq<char>,
    /// The freshness window, in seconds.
    pub fresh_seconds: u64,
    /// How many messages of a channel's history are read back.
    pub msg_count: u64,
    /// The platform filter; empty for all platforms.
    pub platforms: Seq<Seq<char>>,
}

/// The settings of a run and the registered channels.
#[derive(Debug)]
pub struct Handler {
    poll_period: u64,
    poll_count: u64,
    channel_ids: Registry,
    channel_txt_path: String,
    fresh_seconds: u64,
    msg_count: u64,
    platforms: PlatformSet,
}

impl View for Handler {
    type V = HandlerView;

    closed spec fn view(&self) -> HandlerView {
        HandlerView {
            poll_period: self.poll_period,
            poll_count: self.poll_count,
            channels: self.channel_ids@,
            channel_txt_path: self.channel_txt_path@,
            fresh_seconds: self.fresh_seconds,
            msg_count: self.msg_count,
            platforms: self.platforms@,
        }
    }
}

/// The command that a message is.
pub fn parse_command(content: &str) -> (command: Option<Command>)
    ensures
        command == command_of(content@),
{
    if same_text(content, "!stobot") {
        Some(Command::Register)
    } else if same_text(content, "!unstobot") {
        Some(Command::Unregister)
    } else {
        None
    }
}

/// The line that lists the given channels.
pub fn render_listing(ids: &Vec<u64>) -> (line: String)
    ensures
        line@ == listing_text(ids@),
{
    let mut line = String::from_str("Registered channels:");
    let mut i: usize = 0;
    assert(ids@.take(0) =~= Seq::<u64>::empty());
    assert(line@ =~= "Registered channels:"@ + spaced(ids@.take(0)));
    while i < ids.len()
        invariant
            i <= ids.len(),
            line@ == "Registered channels:"@ + spaced(ids@.take(i as int)),
        decreases ids.len() - i,
    {
        let ghost before = line@;
        line.append(" ");
        push_decimal(&mut line, ids[i]);
        proof {
            assert(ids@.take(i + 1).drop_last() =~= ids@.take(i as int));
            assert(ids@.take(i + 1).last() == ids@[i as int]);
            assert(line@ =~= "Registered channels:"@ + spaced(ids@.take(i + 1)));
        }
        i = i + 1;
    }
    assert(ids@.take(ids.len() as int) =~= ids@);
    line
}

impl Handler {
    /// No channel is registered twice.
    pub open spec fn wf(&self) -> bool {
        self@.channels.no_duplicates()
    }

    /// A handler with the given settings. `saved` is what the channel file
    /// held at the start, or the empty text where there was no file: each of
    /// its lines that is an unsigned integer registers a channel. The
    /// platforms may be named in any order and more than once.
    pub fn new(
        poll_period: u64,
        poll_count: u64,
        channel_txt_path: String,
        fresh_seconds: u64,
        msg_count: u64,
        platforms: Vec<String>,
        saved: &str,
    ) -> (handler: Handler)
        ensures
            handler.wf(),
            handler@.poll_period == poll_period,
            handler@.poll_count == poll_count,
            handler@.channel_txt_path == channel_txt_path@,
            handler@.fresh_seconds == fresh_seconds,
            handler@.msg_count == msg_count,
            handler@.platforms == with_names(Seq::empty(), texts(platforms@)),
            handler@.platforms.to_set() == texts(platforms@).to_set(),
            handler@.channels == with_ids(Seq::empty(), listed_ids(saved@)),
    {
        Handler {
            poll_period,
            poll_count,
            channel_ids: Registry::load(saved),
            channel_txt_path,
            fresh_seconds,
            msg_count,
            platforms: PlatformSet::from_names(platforms),
        }
    }

    /// The seconds between two polls.
    pub fn poll_period(&self) -> (seconds: u64)
        ensures
            seconds == self@.poll_period,
    {
        self.poll_period
    }

    /// How many entries each poll asks for.
    pub fn poll_count(&self) -> (n: u64)
        ensures
            n == self@.poll_count,
    {
        self.poll_count
    }

    /// Where the channel file lies.
    pub fn channel_txt_path(&self) -> (path: &String)
        ensures
            path@ == self@.channel_txt_path,
    {
        &self.channel_txt_path
    }

    /// The freshness window, in seconds.
    pub fn fresh_seconds(&self) -> (seconds: u64)
        ensures
            seconds == self@.fresh_seconds,
    {
        self.fresh_seconds
    }

    /// How many messages of a channel's history are read back.
    pub fn msg_count(&self) -> (n: u64)
        ensures
            n == self@.msg_count,
    {
        self.msg_count
    }

    /// The platform filter.
    pub fn platforms(&self) -> (platforms: &PlatformSet)
        ensures
            platforms@ == self@.platforms,
    {
        &self.platforms
    }

    /// A copy of the registered channels, as a set.
    pub fn get_channels(&self) -> (channels: HashSet<u64>)
        ensures
            channels@ == self@.channels.to_set(),
    {
        let listed = self.channel_ids.snapshot();
        let mut channels: HashSet<u64> = HashSet::new();
        let mut i: usize = 0;
        assert(listed@.take(0).to_set() =~= Set::<u64>::empty());
        while i < listed.len()
            invariant
                i <= listed.len(),
                channels@ == listed@.take(i as int).to_set(),
            decreases listed.len() - i,
        {
            channels.insert(listed[i]);
            proof {
                let before = listed@.take(i as int);
                let now = listed@.take(i + 1);
                assert(now =~= before.push(listed@[i as int]));
                assert forall|x: u64| now.to_set().contains(x) <==> before.to_set().insert(
                    listed@[i as int],
                ).contains(x) by {
                    if now.contains(x) {
                        let k = now.index_of(x);
                        if k < i {
                            assert(before[k] == x);
                            assert(before.contains(x));
                        }
                    }
                    if before.contains(x) {
                        let k = before.index_of(x);
                        assert(now[k] == x);
                    }
                    if x == listed@[i as int] {
                        assert(now[i as int] == x);
                    }
                }
                assert(now.to_set() =~= before.to_set().insert(listed@[i as int]));
            }
            i = i + 1;
        }
        assert(listed@.take(listed.len() as int) =~= listed@);
        channels
    }

    /// A copy of the registered channels, in the order of registration, which
    /// is the order of the channel file's lines.
    pub fn channel_list(&self) -> (channels: Vec<u64>)
        ensures
            channels@ == self@.channels,
    {
        self.channel_ids.snapshot()
    }

    /// The text that the channel file holds when it mirrors the registered
    /// channels.
    pub fn channels_file(&self) -> (text: String)
        ensures
            text@ == channel_file(self@.channels),
    {
        self.channel_ids.file_text()
    }

    /// Registers the channel `id`. Nothing changes where it is registered
    /// already.
    pub fn add_channel(&mut self, id: u64)
        requires
            old(self).wf(),
        ensures
            final(self).wf(),
            final(self)@ == (HandlerView { channels: with_id(old(self)@.channels, id), ..old(self)@ }),
            final(self)@.channels.to_set() == old(self)@.channels.to_set().insert(id),
    {
        self.channel_ids.add(id);
    }

    /// Unregisters the channel `id`. Nothing changes where it is not
    /// registered.
    pub fn remove_channel(&mut self, id: u64)
        requires
            old(self).wf(),
        ensures
            final(self).wf(),
            final(self)@ == (HandlerView {
                channels: without_id(old(self)@.channels, id),
                ..old(self)@
            }),
            final(self)@.channels.to_set() == old(self)@.channels.to_set().remove(id),
    {
        self.channel_ids.remove(id);
    }

    /// Carries out a command from the channel `id`.
    pub fn apply(&mut self, command: Command, id: u64)
        requires
            old(self).wf(),
        ensures
            final(self).wf(),
            final(self)@ == (HandlerView {
                channels: channels_after(old(self)@.channels, command, id),
                ..old(self)@
            }),
    {
        match command {
            Command::Register => self.add_channel(id),
            Command::Unregister => self.remove_channel(id),
        }
    }

    /// Ends a command from the channel `id`, given whether the channel file
    /// could be written. A command whose file was written is carried out; one
    /// whose file was not written fails as a whole, and the registered
    /// channels stay as they were, in agreement with the file.
    pub fn settle(&mut self, command: Command, id: u64, written: bool) -> (outcome: Result<
        (),
        PersistenceError,
    >)
        requires
            old(self).wf(),
        ensures
            final(self).wf(),
            outcome is Ok <==> written,
            written ==> final(self)@ == (HandlerView {
                channels: channels_after(old(self)@.channels, command, id),
                ..old(self)@
            }),
            !written ==> final(self)@ == old(self)@,
    {
        if written {
            self.apply(command, id);
            Ok(())
        } else {
            Err(PersistenceError)
        }
    }

    /// The address that a poll fetches.
    pub fn poll_url(&self) -> (url: String)
        ensures
            url@ == feed_address(self@.poll_count),
    {
        feed_url(self.poll_count)
    }

    /// Reads a chat message written in the channel `channel_id`. A message
    /// that is no command needs nothing done. For a command the reply says
    /// what the channel file is to hold, what is recorded and what is
    /// answered once the command is carried out; the handler itself is left
    /// as it is, so that a file that cannot be written leaves it unchanged.
    pub fn message(&self, channel_id: u64, content: &str) -> (reply: Option<Reply>)
        requires
            self.wf(),
        ensures
            match reply {
                Some(reply) => {
                    let after = channels_after(self@.channels, reply.command, channel_id);
                    &&& command_of(content@) == Some(reply.command)
                    &&& reply.file@ == channel_file(after)
                    &&& reply.notice@ == notice_text(reply.command, channel_id)
                    &&& reply.listing@ == listing_text(after)
                    &&& reply.response@ == answer_text(reply.command, after)
                },
                None => command_of(content@) is None,
            },
    {
        let command = match parse_command(content) {
            Some(command) => command,
            None => {
                return None;
            },
        };
        let mut after = self.channel_ids.duplicate();
        let mut notice: String;
        let mut response: String;
        match command {
            Command::Register => {
                after.add(channel_id);
                notice = String::from_str("Registered channel with ID ");
                response = String::from_str("This channel will now have STO news posted.");
            },
            Command::Unregister => {
                after.remove(channel_id);
                notice = String::from_str("Removed channel with ID ");
                response = String::from_str("This channel will no longer have STO news posted.");
            },
        }
        push_decimal(&mut notice, channel_id);
        let listed = after.snapshot();
        let listing = render_listing(&listed);
        response.append("\n");
        response.append(listing.as_str());
        Some(Reply { command, file: after.file_text(), notice, listing, response })
    }

    /// Takes what a fetch brought: a snapshot of exactly `poll_count`
    /// entries is accepted, and of it the entries that pass the platform
    /// filter are kept; anything else is the error that is reported.
    pub fn accept_fetch(&self, fetched: Result<Vec<NewsItem>, FetchError>) -> (outcome: Result<
        News,
        FetchError,
    >)
        ensures
            match outcome {
                Ok(news) => match accepted(fetched_view(fetched), self@.poll_count) {
                    Ok(items) => news@ == kept(items, self@.platforms),
                    Err(_) => false,
                },
                Err(error) => accepted(fetched_view(fetched), self@.poll_count) == Err::<
                    Seq<ItemView>,
                    FetchError,
                >(error),
            },
    {
        let items = match fetched {
            Ok(items) => items,
            Err(error) => {
                return Err(error);
            },
        };
        match News::checked(items, self.poll_count) {
            Ok(news) => {
                let mut news = news;
                news.filter_news_by_platform(&self.platforms);
                Ok(news)
            },
            Err(error) => Err(error),
        }
    }

    /// What one channel is sent at the instant `now`: the places, in the
    /// snapshot, of the entries that the messages read back from the channel
    /// do not name and that are fresh, from the oldest to the newest.
    pub fn announcements_at(&self, news: &News, existing_messages: &Vec<String>, now: i64) -> (places:
        Vec<usize>)
        ensures
            places@ == due_places(
                news@,
                posted_ids(message_texts(existing_messages@)),
                now,
                self@.fresh_seconds,
            ),
    {
        let existing_ids = get_ids_from_messages(existing_messages);
        news.due_for(&existing_ids, now, self.fresh_seconds)
    }

    /// What one channel is sent by the wall clock. Whatever the clock shows,
    /// the result is what `announcements_at` gives for some instant.
    pub fn announcements(&self, news: &News, existing_messages: &Vec<String>) -> (places: Vec<usize>)
        ensures
            exists|now: i64|
                places@ == due_places(
                    news@,
                    posted_ids(message_texts(existing_messages@)),
                    now,
                    self@.fresh_seconds,
                ),
    {
        let now = wall_clock();
        let places = self.announcements_at(news, existing_messages, now);
        assert(places@ == due_places(
            news@,
            posted_ids(message_texts(existing_messages@)),
            now,
            self@.fresh_seconds,
        ));
        places
    }
}

/// What a command does to the channels: none is ever registered twice,
/// the channel is registered after `Register` and unregistered after
/// `Unregister`, and no other channel comes or goes.
pub proof fn lemma_command_effect(channels: Seq<u64>, command: Command, id: u64)
    requires
        channels.no_duplicates(),
    ensures
        channels_after(channels, command, id).no_duplicates(),
        command == Command::Register ==> channels_after(channels, command, id).to_set()
            == channels.to_set().insert(id),
        command == Command::Unregister ==> channels_after(channels, command, id).to_set()
            == channels.to_set().remove(id),
{
    crate::registry::lemma_with_id(channels, id);
    crate::registry::lemma_without_id(channels, id);
}

} // verus!
