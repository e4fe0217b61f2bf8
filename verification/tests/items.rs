use stobot::clock::{
    instant_from_stamp, pacific_time_from_stamp, single_instant, within_window, PacificTime,
};
use stobot::item::NewsItem;
use stobot::platforms::{same_text, standing, PlatformSet, Standing};
use stobot::text::chars_of;

fn names(codes: &[&str]) -> Vec<String> {
    codes.iter().map(|code| code.to_string()).collect()
}

fn set(codes: &[&str]) -> PlatformSet {
    PlatformSet::from_names(names(codes))
}

fn listed(set: &PlatformSet) -> Vec<String> {
    (0..set.len()).map(|i| set.name(i).clone()).collect()
}

fn item(id: u64, codes: &[&str], updated: Option<&str>) -> NewsItem {
    NewsItem::new(
        id,
        "Title".to_string(),
        "Summary".to_string(),
        names(codes),
        updated.map(|stamp| stamp.to_string()),
    )
}

#[test]
fn standing_is_dictionary_order() {
    let order = |a: &str, b: &str| standing(&chars_of(a), &chars_of(b));
    assert_eq!(order("pc", "ps"), Standing::Before);
    assert_eq!(order("ps", "pc"), Standing::After);
    assert_eq!(order("ps", "ps"), Standing::Same);
    assert_eq!(order("p", "pc"), Standing::Before);
    assert_eq!(order("pc", "p"), Standing::After);
    assert_eq!(order("", ""), Standing::Same);
    assert_eq!(order("", "a"), Standing::Before);
    assert_eq!(order("xbox", "ps"), Standing::After);
    assert_eq!(order("Z", "a"), Standing::Before);
}

#[test]
fn standing_agrees_with_std() {
    let words = ["", "a", "ab", "b", "pc", "ps", "xbox", "é", "z", "PC"];
    for a in words {
        for b in words {
            let expected = match a.cmp(b) {
                std::cmp::Ordering::Less => Standing::Before,
                std::cmp::Ordering::Equal => Standing::Same,
                std::cmp::Ordering::Greater => Standing::After,
            };
            assert_eq!(standing(&chars_of(a), &chars_of(b)), expected);
        }
    }
}

#[test]
fn same_text_compares_whole_texts() {
    assert!(same_text("ps", "ps"));
    assert!(!same_text("ps", "ps "));
    assert!(!same_text("ps", "PS"));
    assert!(same_text("", ""));
}

#[test]
fn platform_set_is_sorted_and_without_repeats() {
    let platforms = set(&["xbox", "pc", "ps", "pc", "xbox"]);
    assert_eq!(platforms.len(), 3);
    assert_eq!(listed(&platforms), names(&["pc", "ps", "xbox"]));
    assert!(platforms.contains("ps"));
    assert!(!platforms.contains("switch"));
}

#[test]
fn platform_set_insert_tells_what_is_new() {
    let mut platforms = PlatformSet::new();
    assert!(platforms.is_empty());
    assert!(platforms.insert("ps".to_string()));
    assert!(platforms.insert("pc".to_string()));
    assert!(!platforms.insert("ps".to_string()));
    assert!(platforms.insert("xbox".to_string()));
    assert!(platforms.insert("a".to_string()));
    assert_eq!(listed(&platforms), names(&["a", "pc", "ps", "xbox"]));
}

#[test]
fn platform_sets_are_disjoint_when_they_share_nothing() {
    assert!(set(&["pc"]).is_disjoint(&set(&["ps", "xbox"])));
    assert!(!set(&["pc", "ps"]).is_disjoint(&set(&["ps", "xbox"])));
    assert!(set(&[]).is_disjoint(&set(&["ps"])));
    assert!(set(&["ps"]).is_disjoint(&set(&[])));
    assert!(set(&[]).is_disjoint(&set(&[])));
}

#[test]
fn platform_filter_lets_pass_what_shares_a_platform() {
    let published = set(&["pc"]);
    assert!(!set(&["ps", "xbox"]).admits(&published));
    assert!(set(&["pc"]).admits(&published));
    assert!(set(&[]).admits(&published));
    assert!(set(&["xbox", "pc"]).admits(&published));
}

#[test]
fn platform_filter_and_an_item_without_platforms() {
    let published = set(&[]);
    assert!(!set(&["pc"]).admits(&published));
    assert!(set(&[]).admits(&published));
}

#[test]
fn item_keeps_what_it_was_made_of() {
    let entry = item(11, &["ps", "pc"], Some("2023-01-15 12:00:00"));
    assert_eq!(entry.get_id(), 11);
    assert_eq!(entry.title(), "Title");
    assert_eq!(entry.summary(), "Summary");
    assert_eq!(listed(entry.platforms()), names(&["pc", "ps"]));
    assert_eq!(entry.updated(), &Some("2023-01-15 12:00:00".to_string()));
}

#[test]
fn items_are_equal_by_id_alone() {
    let a = NewsItem::new(1, "a".to_string(), "x".to_string(), names(&["pc"]), None);
    let b = NewsItem::new(1, "b".to_string(), "y".to_string(), names(&["ps"]), Some("z".to_string()));
    let c = NewsItem::new(2, "a".to_string(), "x".to_string(), names(&["pc"]), None);
    assert!(a == b);
    assert!(a != c);
}

#[test]
fn message_of_an_item_for_all_platforms() {
    let entry = NewsItem::new(
        11560553,
        "Patch Notes".to_string(),
        "Check out the changes.".to_string(),
        names(&["xbox", "pc", "ps"]),
        None,
    );
    let expected = "**Patch Notes**\nCheck out the changes.\n\
<https://playstartrekonline.com/en/news/article/11560553>\n\
<https://www.arcgames.com/en/games/star-trek-online/news/detail/11560553>\n\
<https://www.arcgames.com/en/games/playstation/star-trek-online/news/detail/11560553>\n\
<https://www.arcgames.com/en/games/xbox/star-trek-online/news/detail/11560553>\n";
    assert_eq!(entry.get_msg_str(), expected);
}

#[test]
fn message_of_an_item_without_platforms() {
    let entry = NewsItem::new(7, "T".to_string(), "S".to_string(), vec![], None);
    assert_eq!(
        entry.get_msg_str(),
        "**T**\nS\n<https://playstartrekonline.com/en/news/article/7>\n"
    );
}

#[test]
fn message_of_an_item_for_an_unknown_platform() {
    let entry = NewsItem::new(0, "".to_string(), "".to_string(), names(&["switch"]), None);
    assert_eq!(
        entry.get_msg_str(),
        "****\n\n<https://playstartrekonline.com/en/news/article/0>\n\
<https://www.arcgames.com/en/games/star-trek-online/news/detail/0>\n"
    );
}

#[test]
fn window_is_closed_at_both_ends() {
    let at = 1_000_000i64;
    assert!(within_window(Some(at), at + 120, 120));
    assert!(!within_window(Some(at), at + 121, 120));
    assert!(within_window(Some(at), at - 120, 120));
    assert!(!within_window(Some(at), at - 121, 120));
    assert!(within_window(Some(at), at, 0));
    assert!(!within_window(Some(at), at + 1, 0));
    assert!(!within_window(None, at, u64::MAX));
}

#[test]
fn window_holds_the_widest_distances() {
    assert!(within_window(Some(i64::MIN), i64::MAX, u64::MAX));
    assert!(!within_window(Some(i64::MIN), i64::MAX, u64::MAX - 1));
    assert!(within_window(Some(i64::MAX), i64::MIN, u64::MAX));
    assert!(within_window(Some(-5), 5, 10));
    assert!(!within_window(Some(-5), 5, 9));
}

#[test]
fn stamps_are_read_on_pacific_clocks() {
    assert_eq!(instant_from_stamp("2023-01-15 12:00:00"), Some(1673812800));
    assert_eq!(instant_from_stamp("2023-07-01 12:00:00"), Some(1688238000));
    assert_eq!(instant_from_stamp("1970-01-01 00:00:00"), Some(28800));
}

#[test]
fn stamps_that_name_no_single_instant() {
    assert_eq!(instant_from_stamp("2023-03-12 02:30:00"), None);
    assert_eq!(instant_from_stamp("2023-11-05 01:30:00"), None);
    assert_eq!(instant_from_stamp("yesterday"), None);
    assert_eq!(instant_from_stamp(""), None);
    assert_eq!(instant_from_stamp("2023-02-30 12:00:00"), None);
    assert_eq!(instant_from_stamp("2023-01-15"), None);
}

#[test]
fn freshness_is_inclusive_at_the_boundary() {
    let entry = item(1, &["pc"], Some("2023-01-15 12:00:00"));
    let at = 1673812800i64;
    assert_eq!(entry.updated_at(), Some(at));
    assert!(entry.is_fresh_at(at, 120));
    assert!(entry.is_fresh_at(at + 120, 120));
    assert!(!entry.is_fresh_at(at + 121, 120));
    assert!(entry.is_fresh_at(at - 120, 120));
    assert!(!entry.is_fresh_at(at - 121, 120));
}

#[test]
fn item_without_a_readable_stamp_is_never_fresh() {
    let missing = item(1, &["pc"], None);
    let garbled = item(2, &["pc"], Some("soon"));
    assert_eq!(missing.updated_at(), None);
    assert_eq!(garbled.updated_at(), None);
    assert!(!missing.is_fresh_at(0, u64::MAX));
    assert!(!garbled.is_fresh_at(0, u64::MAX));
    assert!(!missing.is_fresh(u64::MAX));
    assert!(!garbled.is_fresh(u64::MAX));
}

#[test]
fn freshness_by_the_wall_clock() {
    let old = item(1, &["pc"], Some("2001-09-09 01:46:40"));
    assert!(!old.is_fresh(120));
    assert!(old.is_fresh(u64::MAX));
}

#[test]
fn clocks_show_most_times_once() {
    assert_eq!(
        pacific_time_from_stamp("2023-01-15 12:00:00"),
        Some(PacificTime::Single(1673812800))
    );
    assert_eq!(
        pacific_time_from_stamp("2023-07-01 12:00:00"),
        Some(PacificTime::Single(1688238000))
    );
}

#[test]
fn clocks_set_back_show_a_time_twice() {
    assert_eq!(
        pacific_time_from_stamp("2023-11-05 01:30:00"),
        Some(PacificTime::Ambiguous(1699173000, 1699176600))
    );
    assert_eq!(
        pacific_time_from_stamp("2023-11-05 00:59:59"),
        Some(PacificTime::Single(1699171199))
    );
    assert_eq!(
        pacific_time_from_stamp("2023-11-05 02:00:00"),
        Some(PacificTime::Single(1699178400))
    );
}

#[test]
fn clocks_set_forward_pass_a_time_over() {
    assert_eq!(pacific_time_from_stamp("2023-03-12 02:30:00"), Some(PacificTime::Missing));
    assert_eq!(
        pacific_time_from_stamp("2023-03-12 01:59:59"),
        Some(PacificTime::Single(1678615199))
    );
    assert_eq!(
        pacific_time_from_stamp("2023-03-12 03:00:00"),
        Some(PacificTime::Single(1678615200))
    );
}

#[test]
fn stamps_of_another_form_are_no_time() {
    assert_eq!(pacific_time_from_stamp("soon"), None);
    assert_eq!(pacific_time_from_stamp("2023-01-15T12:00:00"), None);
    assert_eq!(pacific_time_from_stamp("2023-13-01 00:00:00"), None);
}

#[test]
fn only_a_single_instant_counts() {
    assert_eq!(single_instant(PacificTime::Single(5)), Some(5));
    assert_eq!(single_instant(PacificTime::Single(-5)), Some(-5));
    assert_eq!(single_instant(PacificTime::Ambiguous(1, 2)), None);
    assert_eq!(single_instant(PacificTime::Missing), None);
    assert_eq!(single_instant(PacificTime::OutOfRange), None);
}
