use std::collections::HashSet;

use stobot::handler::{
    feed_url, parse_command, render_listing, Command, Handler, PersistenceError,
};
use stobot::item::NewsItem;
use stobot::news::FetchError;

fn names(codes: &[&str]) -> Vec<String> {
    codes.iter().map(|code| code.to_string()).collect()
}

fn handler(platforms: &[&str], saved: &str) -> Handler {
    Handler::new(10, 3, "channels.txt".to_string(), 120, 50, names(platforms), saved)
}

fn entry(id: u64, codes: &[&str], updated: &str) -> NewsItem {
    NewsItem::new(
        id,
        format!("Title {}", id),
        format!("Summary {}", id),
        names(codes),
        Some(updated.to_string()),
    )
}

#[test]
fn handler_keeps_its_settings() {
    let handler = handler(&["xbox", "pc", "pc"], "");
    assert_eq!(handler.poll_period(), 10);
    assert_eq!(handler.poll_count(), 3);
    assert_eq!(handler.channel_txt_path(), "channels.txt");
    assert_eq!(handler.fresh_seconds(), 120);
    assert_eq!(handler.msg_count(), 50);
    assert_eq!(handler.platforms().len(), 2);
    assert_eq!(handler.platforms().name(0), "pc");
    assert_eq!(handler.platforms().name(1), "xbox");
    assert_eq!(handler.channel_list(), Vec::<u64>::new());
}

#[test]
fn handler_loads_the_saved_channels() {
    let handler = handler(&["pc"], "100\n200\nnotanumber\n300");
    assert_eq!(handler.channel_list(), vec![100, 200, 300]);
    assert_eq!(handler.channels_file(), "100\n200\n300\n");
}

#[test]
fn handler_adds_and_removes_channels() {
    let mut handler = handler(&["pc"], "1\n");
    handler.add_channel(2);
    handler.add_channel(1);
    assert_eq!(handler.channel_list(), vec![1, 2]);
    handler.remove_channel(1);
    handler.remove_channel(7);
    assert_eq!(handler.channel_list(), vec![2]);
    assert_eq!(handler.channels_file(), "2\n");
}

#[test]
fn handler_add_is_idempotent() {
    let mut handler = handler(&["pc"], "");
    handler.add_channel(5);
    handler.add_channel(5);
    assert_eq!(handler.get_channels().len(), 1);
    assert_eq!(handler.channel_list(), vec![5]);
    assert_eq!(handler.channels_file(), "5\n");
}

#[test]
fn commands_are_the_bare_keywords() {
    assert_eq!(parse_command("!stobot"), Some(Command::Register));
    assert_eq!(parse_command("!unstobot"), Some(Command::Unregister));
    assert_eq!(parse_command("!stobot "), None);
    assert_eq!(parse_command(" !stobot"), None);
    assert_eq!(parse_command("!STOBOT"), None);
    assert_eq!(parse_command("stobot"), None);
    assert_eq!(parse_command(""), None);
}

#[test]
fn listing_names_every_channel() {
    assert_eq!(render_listing(&vec![]), "Registered channels:");
    assert_eq!(render_listing(&vec![3, 1, 2]), "Registered channels: 3 1 2");
}

#[test]
fn register_command_is_planned_before_it_is_carried_out() {
    let mut handler = handler(&["pc"], "100\n");
    let reply = handler.message(200, "!stobot").unwrap();
    assert_eq!(reply.command, Command::Register);
    assert_eq!(reply.file, "100\n200\n");
    assert_eq!(reply.notice, "Registered channel with ID 200");
    assert_eq!(reply.listing, "Registered channels: 100 200");
    assert_eq!(
        reply.response,
        "This channel will now have STO news posted.\nRegistered channels: 100 200"
    );
    assert_eq!(handler.channel_list(), vec![100]);
    handler.apply(reply.command, 200);
    assert_eq!(handler.channel_list(), vec![100, 200]);
    assert_eq!(handler.channels_file(), reply.file);
}

#[test]
fn unregister_command_is_planned_before_it_is_carried_out() {
    let mut handler = handler(&["pc"], "100\n200\n");
    let reply = handler.message(100, "!unstobot").unwrap();
    assert_eq!(reply.command, Command::Unregister);
    assert_eq!(reply.file, "200\n");
    assert_eq!(reply.notice, "Removed channel with ID 100");
    assert_eq!(reply.listing, "Registered channels: 200");
    assert_eq!(
        reply.response,
        "This channel will no longer have STO news posted.\nRegistered channels: 200"
    );
    handler.apply(reply.command, 100);
    assert_eq!(handler.channel_list(), vec![200]);
    assert_eq!(handler.channels_file(), reply.file);
}

#[test]
fn repeated_register_command_changes_nothing() {
    let mut handler = handler(&["pc"], "100\n");
    let reply = handler.message(100, "!stobot").unwrap();
    assert_eq!(reply.file, "100\n");
    assert_eq!(reply.listing, "Registered channels: 100");
    assert_eq!(
        reply.response,
        "This channel will now have STO news posted.\nRegistered channels: 100"
    );
    handler.apply(reply.command, 100);
    assert_eq!(handler.channel_list(), vec![100]);
}

#[test]
fn other_messages_need_nothing_done() {
    let handler = handler(&["pc"], "100\n");
    assert!(handler.message(5, "hello").is_none());
    assert!(handler.message(5, "!stobot please").is_none());
    assert!(handler.message(5, "").is_none());
}

#[test]
fn accepted_fetch_is_filtered_by_platform() {
    let handler = handler(&["ps"], "");
    let fetched = Ok(vec![
        entry(3, &["pc"], "2023-01-15 12:00:00"),
        entry(2, &["ps"], "2023-01-15 12:00:00"),
        entry(1, &["ps", "pc"], "2023-01-15 12:00:00"),
    ]);
    let news = handler.accept_fetch(fetched).unwrap();
    assert_eq!(news.ids(), vec![2, 1]);
}

#[test]
fn fetch_of_another_size_is_refused() {
    let handler = handler(&["ps"], "");
    let fetched = Ok(vec![entry(3, &["ps"], "2023-01-15 12:00:00")]);
    assert_eq!(handler.accept_fetch(fetched).err(), Some(FetchError::ShapeError));
    assert_eq!(
        handler.accept_fetch(Err(FetchError::TransportError)).err(),
        Some(FetchError::TransportError)
    );
    assert_eq!(
        handler.accept_fetch(Err(FetchError::ParseError)).err(),
        Some(FetchError::ParseError)
    );
}

#[test]
fn channel_is_sent_what_its_history_lacks() {
    let handler = handler(&[], "");
    let fetched = Ok(vec![
        entry(99, &["pc"], "2023-01-15 12:00:00"),
        entry(42, &["pc"], "2023-01-15 12:00:00"),
        entry(17, &["pc"], "2023-01-15 11:00:00"),
    ]);
    let news = handler.accept_fetch(fetched).unwrap();
    let history = vec![news.item(1).get_msg_str(), "something else".to_string()];
    let now = 1673812800 + 120;
    assert_eq!(handler.announcements_at(&news, &history, now), vec![0]);
    assert_eq!(handler.announcements_at(&news, &vec![], now), vec![1, 0]);
    assert_eq!(handler.announcements_at(&news, &vec![], now + 1), Vec::<usize>::new());
}

#[test]
fn channel_is_sent_nothing_stale_by_the_wall_clock() {
    let handler = handler(&[], "");
    let fetched = Ok(vec![
        entry(3, &["pc"], "2001-01-15 12:00:00"),
        entry(2, &["pc"], "never"),
        entry(1, &["pc"], "2001-01-15 12:00:00"),
    ]);
    let news = handler.accept_fetch(fetched).unwrap();
    assert_eq!(handler.announcements(&news, &vec![]), Vec::<usize>::new());
}

#[test]
fn command_is_carried_out_once_the_file_is_written() {
    let mut handler = handler(&["pc"], "100\n");
    let reply = handler.message(200, "!stobot").unwrap();
    assert_eq!(handler.settle(reply.command, 200, true), Ok(()));
    assert_eq!(handler.channel_list(), vec![100, 200]);
    assert_eq!(handler.channels_file(), reply.file);
}

#[test]
fn command_fails_as_a_whole_when_the_file_is_not_written() {
    let mut handler = handler(&["pc"], "100\n");
    let reply = handler.message(200, "!stobot").unwrap();
    assert_eq!(handler.settle(reply.command, 200, false), Err(PersistenceError));
    assert_eq!(handler.channel_list(), vec![100]);
    assert_eq!(handler.channels_file(), "100\n");
    let reply = handler.message(100, "!unstobot").unwrap();
    assert_eq!(handler.settle(reply.command, 100, false), Err(PersistenceError));
    assert_eq!(handler.channel_list(), vec![100]);
}

#[test]
fn feed_address_names_the_count_and_the_fields() {
    assert_eq!(
        feed_url(20),
        "https://api.arcgames.com/v1.0/games/sto/news?limit=20&field[]=platforms&field[]=updated"
    );
    assert_eq!(
        handler(&["pc"], "").poll_url(),
        "https://api.arcgames.com/v1.0/games/sto/news?limit=3&field[]=platforms&field[]=updated"
    );
    assert_eq!(
        feed_url(0),
        "https://api.arcgames.com/v1.0/games/sto/news?limit=0&field[]=platforms&field[]=updated"
    );
}

#[test]
fn channels_are_handed_out_as_a_set() {
    let mut handler = handler(&["pc"], "3\n1\n2\n1\n");
    assert_eq!(handler.get_channels(), HashSet::from([1, 2, 3]));
    handler.remove_channel(1);
    handler.add_channel(9);
    assert_eq!(handler.get_channels(), HashSet::from([2, 3, 9]));
    assert_eq!(handler.channel_list(), vec![3, 2, 9]);
    let empty = Handler::new(1, 1, "".to_string(), 1, 1, vec![], "");
    assert_eq!(empty.get_channels(), HashSet::new());
}

#[test]
fn answer_lists_every_channel_after_the_command() {
    let handler = handler(&["pc"], "7\n8\n");
    let reply = handler.message(9, "!stobot").unwrap();
    assert_eq!(
        reply.response,
        "This channel will now have STO news posted.\nRegistered channels: 7 8 9"
    );
    let reply = handler.message(7, "!unstobot").unwrap();
    assert_eq!(
        reply.response,
        "This channel will no longer have STO news posted.\nRegistered channels: 8"
    );
    let reply = handler.message(5, "!unstobot").unwrap();
    assert_eq!(
        reply.response,
        "This channel will no longer have STO news posted.\nRegistered channels: 7 8"
    );
}

#[test]
fn answer_to_the_last_channel_that_leaves() {
    let handler = handler(&["pc"], "7\n");
    let reply = handler.message(7, "!unstobot").unwrap();
    assert_eq!(reply.file, "");
    assert_eq!(
        reply.response,
        "This channel will no longer have STO news posted.\nRegistered channels:"
    );
}
