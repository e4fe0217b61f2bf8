//! What a channel has been told already: the identifiers that close the
//! messages posted to it.

use vstd::prelude::*;
use crate::item::{article_lines, message_text, platform_link, platform_links, ItemView};
use crate::text::{
    all_digits, chars_of, decimal_digits, decimal_number, is_digit, is_digit_char,
    lemma_decimal_digits_value, lemma_decimal_round_trip, parse_digits,
};

verus! {

/// A blank: a space, a tab, a line feed or a carriage return.
pub open spec fn is_blank(c: char) -> bool {
    c == ' ' || c == '\t' || c == '\n' || c == '\r'
}

/// A text without the blanks at its end.
pub open spec fn without_trailing_blanks(s: Seq<char>) -> Seq<char>
    decreases s.len(),
{
    if s.len() > 0 && is_blank(s.last()) {
        without_trailing_blanks(s.drop_last())
    } else {
        s
    }
}

/// A text without the angle bracket that closes a link at its end, if there
/// is one.
pub open spec fn without_closing_bracket(s: Seq<char>) -> Seq<char> {
    if s.len() > 0 && s.last() == '>' {
        s.drop_last()
    } else {
        s
    }
}

/// The longest run of digits that a text ends with.
pub open spec fn trailing_digits(s: Seq<char>) -> Seq<char>
    decreases s.len(),
{
    if s.len() > 0 && is_digit(s.last()) {
        trailing_digits(s.drop_last()).push(s.last())
    } else {
        Seq::empty()
    }
}

/// The identifier that closes a message: the last run of digits at its end,
/// where blanks after it, and the bracket that closes the link it belongs to,
/// are set aside. `None` where the message does not end in digits, or where
/// they write no 64-bit number.
pub open spec fn trailing_id(message: Seq<char>) -> Option<u64> {
    decimal_number(trailing_digits(without_closing_bracket(without_trailing_blanks(message))))
}

/// The identifiers that close the given messages, in the order of the
/// messages. A message without one gives none.
pub open spec fn posted_ids(messages: Seq<Seq<char>>) -> Seq<u64>
    decreases messages.len(),
{
    if messages.len() == 0 {
        Seq::empty()
    } else {
        let front = posted_ids(messages.drop_last());
        match trailing_id(messages.last()) {
            Some(id) => front.push(id),
            None => front,
        }
    }
}

/// The texts of a list of messages.
pub open spec fn message_texts(messages: Seq<String>) -> Seq<Seq<char>> {
    Seq::new(messages.len(), |i: int| messages[i]@)
}

/// Whether a character is a blank.
pub fn is_blank_char(c: char) -> (blank: bool)
    ensures
        blank == is_blank(c),
{
    c == ' ' || c == '\t' || c == '\n' || c == '\r'
}

/// A text that ends in a run of digits after something that is no digit has
/// that run as its trailing digits.
pub proof fn lemma_trailing_digits_of_run(front: Seq<char>, digits: Seq<char>)
    requires
        all_digits(digits),
        front.len() == 0 || !is_digit(front.last()),
    ensures
        trailing_digits(front + digits) == digits,
    decreases digits.len(),
{
    let s = front + digits;
    if digits.len() == 0 {
        assert(s =~= front);
    } else {
        assert(s.last() == digits.last());
        assert(is_digit(digits.last()));
        assert(s.drop_last() =~= front + digits.drop_last());
        assert forall|i: int| 0 <= i < digits.drop_last().len() implies is_digit(
            #[trigger] digits.drop_last()[i],
        ) by {
            assert(digits.drop_last()[i] == digits[i]);
        }
        lemma_trailing_digits_of_run(front, digits.drop_last());
        assert(digits.drop_last().push(digits.last()) =~= digits);
    }
}

/// A text that ends in something that is no digit, the numeral of `id`, a
/// closing bracket and a line feed has `id` as its trailing identifier.
pub proof fn lemma_trailing_id_of_link(front: Seq<char>, id: u64)
    requires
        front.len() == 0 || !is_digit(front.last()),
    ensures
        trailing_id(front + decimal_digits(id as nat) + ">\n"@) == Some(id),
{
    reveal_strlit(">\n");
    let digits = decimal_digits(id as nat);
    let close = ">\n"@;
    let s = front + digits + close;
    assert(close.len() == 2 && close[0] == '>' && close[1] == '\n');
    assert(s.last() == '\n');
    let t = s.drop_last();
    assert(t =~= (front + digits).push('>'));
    assert(t.last() == '>');
    assert(!is_blank('>'));
    assert(without_trailing_blanks(t) == t);
    assert(without_trailing_blanks(s) == t);
    assert(t.drop_last() =~= front + digits);
    lemma_decimal_digits_value(id as nat);
    lemma_trailing_digits_of_run(front, digits);
    lemma_decimal_round_trip(id);
}

/// The announcement of an entry closes with the entry's identifier: a
/// channel that was sent the announcement is known to have the entry.
pub proof fn lemma_message_names_its_item(item: ItemView)
    ensures
        trailing_id(message_text(item)) == Some(item.id),
{
    reveal_strlit("\n<https://playstartrekonline.com/en/news/article/");
    reveal_strlit("/star-trek-online/news/detail/");
    let digits = decimal_digits(item.id as nat);
    let close = ">\n"@;
    if item.platforms.len() == 0 {
        let opening = "\n<https://playstartrekonline.com/en/news/article/"@;
        let front = "**"@ + item.title + "**\n"@ + item.summary + opening;
        assert(front.last() == opening.last());
        assert(opening.last() == '/');
        assert(message_text(item) =~= front + digits + close);
        lemma_trailing_id_of_link(front, item.id);
    } else {
        let opening = "/star-trek-online/news/detail/"@;
        let code = item.platforms.last();
        let front = article_lines(item.title, item.summary, item.id) + platform_links(
            item.platforms.drop_last(),
            item.id,
        ) + "<https://www.arcgames.com/en/games"@ + crate::item::platform_path(code) + opening;
        assert(front.last() == opening.last());
        assert(opening.last() == '/');
        assert(platform_link(code, item.id) =~= "<https://www.arcgames.com/en/games"@
            + crate::item::platform_path(code) + opening + digits + close);
        assert(message_text(item) =~= front + digits + close);
        lemma_trailing_id_of_link(front, item.id);
    }
}

/// The identifier that closes a message.
pub fn message_id(message: &str) -> (id: Option<u64>)
    ensures
        id == trailing_id(message@),
{
    let chars = chars_of(message);
    let ghost s = chars@;
    let mut end: usize = chars.len();
    assert(s.take(end as int) =~= s);
    while end > 0 && is_blank_char(chars[end - 1])
        invariant
            end <= chars.len(),
            s == chars@,
            without_trailing_blanks(s) == without_trailing_blanks(s.take(end as int)),
        decreases end,
    {
        assert(s.take(end as int).drop_last() =~= s.take(end - 1));
        end = end - 1;
    }
    if end > 0 && chars[end - 1] == '>' {
        end = end - 1;
    }
    let ghost u = s.take(end as int);
    assert(u =~= without_closing_bracket(without_trailing_blanks(s))) by {
        let t = without_trailing_blanks(s);
        if t.len() > 0 && t.last() == '>' {
            assert(t.drop_last() =~= u);
        }
    }
    let mut start: usize = end;
    assert(u.subrange(start as int, end as int) =~= Seq::<char>::empty());
    assert(u.take(start as int) =~= u);
    assert(trailing_digits(u) =~= trailing_digits(u.take(start as int)) + u.subrange(
        start as int,
        end as int,
    ));
    while start > 0 && is_digit_char(chars[start - 1])
        invariant
            start <= end <= chars.len(),
            s == chars@,
            u == s.take(end as int),
            all_digits(u.subrange(start as int, end as int)),
            trailing_digits(u) == trailing_digits(u.take(start as int)) + u.subrange(
                start as int,
                end as int,
            ),
        decreases start,
    {
        proof {
            let p = u.take(start as int);
            assert(p.last() == chars@[start - 1]);
            assert(p.drop_last() =~= u.take(start - 1));
            assert(trailing_digits(p) == trailing_digits(u.take(start - 1)).push(p.last()));
            assert(u.subrange(start - 1, end as int) =~= seq![p.last()] + u.subrange(
                start as int,
                end as int,
            ));
            assert(trailing_digits(u.take(start - 1)).push(p.last()) + u.subrange(
                start as int,
                end as int,
            ) =~= trailing_digits(u.take(start - 1)) + u.subrange(start - 1, end as int));
        }
        start = start - 1;
    }
    proof {
        let p = u.take(start as int);
        if start > 0 {
            assert(p.last() == chars@[start - 1]);
        }
        assert(trailing_digits(p) =~= Seq::<char>::empty());
        assert(trailing_digits(u) =~= u.subrange(start as int, end as int));
        assert(u.subrange(start as int, end as int) =~= chars@.subrange(start as int, end as int));
    }
    parse_digits(&chars, start, end)
}

/// The identifiers that close the messages read back from a channel, in the
/// order of the messages.
pub fn get_ids_from_messages(messages: &Vec<String>) -> (ids: Vec<u64>)
    ensures
        ids@ == posted_ids(message_texts(messages@)),
{
    let ghost texts = message_texts(messages@);
    let mut ids: Vec<u64> = Vec::new();
    let mut i: usize = 0;
    assert(texts.take(0) =~= Seq::<Seq<char>>::empty());
    while i < messages.len()
        invariant
            i <= messages.len(),
            texts == message_texts(messages@),
            ids@ == posted_ids(texts.take(i as int)),
        decreases messages.len() - i,
    {
        proof {
            assert(texts.take(i + 1).drop_last() =~= texts.take(i as int));
            assert(texts.take(i + 1).last() == messages@[i as int]@);
        }
        match message_id(messages[i].as_str()) {
            Some(id) => {
                ids.push(id);
            },
            None => {},
        }
        i = i + 1;
    }
    assert(texts.take(messages.len() as int) =~= texts);
    ids
}

/// Whether `id` is among the given identifiers.
pub fn has_id(ids: &Vec<u64>, id: u64) -> (found: bool)
    ensures
        found == ids@.contains(id),
{
    let mut i: usize = 0;
    while i < ids.len()
        invariant
            i <= ids.len(),
            forall|j: int| 0 <= j < i ==> ids@[j] != id,
        decreases ids.len() - i,
    {
        if ids[i] == id {
            return true;
        }
        i = i + 1;
    }
    false
}

} // verus!
