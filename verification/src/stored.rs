//! The text in which the registry keeps a declaration, and the proof that nothing is lost in
//! it.
//!
//! A declaration is first laid out as a tree of texts and lists. The tree is then written
//! down with every length in front: a text as its length, a colon and its characters; a
//! list as the number of its items, an opening bracket and the items one after another.
//! Reading goes by the lengths alone, so that no character of a text needs escaping.

use vstd::prelude::*;
use vstd::string::*;

verus! {

/// A tree of texts and lists.
pub enum Node {
    Text(Seq<char>),
    List(Seq<Node>),
}

/// Whether a character is a decimal digit.
pub open spec fn is_digit(c: char) -> bool {
    '0' <= c <= '9'
}

/// The number that a decimal digit stands for.
pub open spec fn digit_value(c: char) -> nat
    recommends
        is_digit(c),
{
    (c as u32 - '0' as u32) as nat
}

/// The decimal digit of a number below ten.
pub open spec fn digit(value: nat) -> char
    recommends
        value < 10,
{
    ('0' as u8 + value as u8) as char
}

/// A number in decimal, without leading zeros.
pub open spec fn digits(value: nat) -> Seq<char>
    decreases value,
{
    if value < 10 {
        seq![digit(value)]
    } else {
        digits(value / 10).push(digit(value % 10))
    }
}

/// A tree as text.
pub open spec fn encode(node: Node) -> Seq<char>
    decreases node, 0nat,
{
    match node {
        Node::Text(text) => digits(text.len()) + seq![':'] + text,
        Node::List(items) => digits(items.len()) + seq!['['] + encode_all(items),
    }
}

/// The texts of a run of trees, one after another.
pub open spec fn encode_all(items: Seq<Node>) -> Seq<char>
    decreases items, 1nat,
{
    if items.len() == 0 {
        Seq::empty()
    } else {
        encode(items[0]) + encode_all(items.drop_first())
    }
}

/// Where the digits that start at `at` end.
pub open spec fn digits_end(text: Seq<char>, at: int) -> int
    decreases text.len() - at,
{
    if 0 <= at < text.len() && is_digit(text[at]) {
        digits_end(text, at + 1)
    } else {
        at
    }
}

/// The number that the digits from `at` up to `end` make of `before`, when they are
/// written behind it.
pub open spec fn scan(text: Seq<char>, at: int, end: int, before: nat) -> nat
    decreases end - at,
{
    if at >= end {
        before
    } else {
        scan(text, at, end - 1, before) * 10 + digit_value(text[end - 1])
    }
}

/// The number written at `at`, with the place where it ends; `None` where no digit stands.
pub open spec fn number_at(text: Seq<char>, at: int) -> Option<(nat, int)> {
    let end = digits_end(text, at);
    if 0 <= at < end {
        Some((scan(text, at, end, 0), end))
    } else {
        None
    }
}

/// The tree written at `at`, with the place where it ends; `None` where none is written.
pub open spec fn decode(text: Seq<char>, at: int) -> Option<(Node, int)>
    decreases text.len() - at, 0nat,
{
    match number_at(text, at) {
        None => None,
        Some((length, mark)) => if mark >= text.len() {
            None
        } else if text[mark] == ':' {
            if mark + 1 + length <= text.len() {
                Some((Node::Text(text.subrange(mark + 1, mark + 1 + length)), mark + 1 + length))
            } else {
                None
            }
        } else if text[mark] == '[' && length <= text.len() && mark >= at {
            match decode_all(text, mark + 1, length) {
                Some((items, end)) => Some((Node::List(items), end)),
                None => None,
            }
        } else {
            None
        },
    }
}

/// The `count` trees written one after another from `at`, with the place where they end.
pub open spec fn decode_all(text: Seq<char>, at: int, count: nat) -> Option<(Seq<Node>, int)>
    decreases text.len() - at, count + 1,
{
    if count == 0 {
        Some((Seq::empty(), at))
    } else {
        match decode(text, at) {
            Some((first, next)) => if next <= at || next > text.len() {
                None
            } else {
                match decode_all(text, next, (count - 1) as nat) {
                    Some((rest, end)) => Some((seq![first] + rest, end)),
                    None => None,
                }
            },
            None => None,
        }
    }
}

/// Reading a tree never ends outside the text, and never where it started.
pub proof fn lemma_decode_advances(text: Seq<char>, at: int)
    ensures
        decode(text, at) matches Some((_, next)) ==> 0 <= at < next <= text.len(),
    decreases text.len() - at, 0nat,
{
    lemma_digits_end_bounds(text, at);
    match number_at(text, at) {
        None => {},
        Some((length, mark)) => {
            if mark < text.len() && text[mark] == '[' && length <= text.len() {
                lemma_decode_all_advances(text, mark + 1, length);
            }
        },
    }
}

/// Reading a run of trees never ends outside the text, nor before it started.
pub proof fn lemma_decode_all_advances(text: Seq<char>, at: int, count: nat)
    requires
        0 <= at <= text.len(),
    ensures
        decode_all(text, at, count) matches Some((items, end)) ==> at <= end <= text.len()
            && items.len() == count,
    decreases text.len() - at, count + 1,
{
    if count > 0 {
        lemma_decode_advances(text, at);
        match decode(text, at) {
            Some((first, next)) => {
                if next > at {
                    lemma_decode_all_advances(text, next, (count - 1) as nat);
                }
            },
            None => {},
        }
    }
}

/// Digits end behind where they start, and inside the text.
pub proof fn lemma_digits_end_bounds(text: Seq<char>, at: int)
    ensures
        at <= digits_end(text, at),
        0 <= at <= text.len() ==> digits_end(text, at) <= text.len(),
        forall|i: int| at <= i < digits_end(text, at) ==> is_digit(#[trigger] text[i]),
        0 <= at ==> !(digits_end(text, at) < text.len() && is_digit(text[digits_end(text, at)])),
    decreases text.len() - at,
{
    if 0 <= at < text.len() && is_digit(text[at]) {
        lemma_digits_end_bounds(text, at + 1);
    }
}

/// Where digits stand from `at` up to `end` and no digit follows, the digits end at `end`.
pub proof fn lemma_digits_end_is(text: Seq<char>, at: int, end: int)
    requires
        0 <= at <= end <= text.len(),
        forall|i: int| at <= i < end ==> is_digit(#[trigger] text[i]),
        end == text.len() || !is_digit(text[end]),
    ensures
        digits_end(text, at) == end,
    decreases end - at,
{
    if at < end {
        lemma_digits_end_is(text, at + 1, end);
    }
}

/// A number in decimal is made of digits, and reads as the number.
pub proof fn lemma_digits_read_back(value: nat)
    ensures
        digits(value).len() > 0,
        forall|i: int| 0 <= i < digits(value).len() ==> is_digit(#[trigger] digits(value)[i]),
    decreases value,
{
    if value >= 10 {
        lemma_digits_read_back(value / 10);
    }
}

/// The digits of a number, standing in a text from `at`, scan to the number.
pub proof fn lemma_scan_digits(text: Seq<char>, at: int, value: nat)
    requires
        0 <= at,
        at + digits(value).len() <= text.len(),
        text.subrange(at, at + digits(value).len()) == digits(value),
    ensures
        scan(text, at, at + digits(value).len(), 0) == value,
    decreases value,
{
    let written = digits(value);
    let end = at + written.len();
    assert(text[end - 1] == written[written.len() - 1]);
    if value < 10 {
        assert(scan(text, at, at, 0) == 0);
        assert(scan(text, at, at + 1, 0) == scan(text, at, at, 0) * 10 + digit_value(text[at]));
    } else {
        let front = digits(value / 10);
        assert(written.drop_last() =~= front);
        assert(text.subrange(at, at + front.len()) =~= front);
        lemma_scan_digits(text, at, value / 10);
        lemma_digits_read_back(value / 10);
        assert(value == (value / 10) * 10 + value % 10);
    }
}

/// A run of trees takes at least as many characters as it has trees.
pub proof fn lemma_encode_all_length(items: Seq<Node>)
    ensures
        encode_all(items).len() >= items.len(),
    decreases items.len(),
{
    if items.len() > 0 {
        lemma_digits_read_back(
            match items[0] {
                Node::Text(text) => text.len(),
                Node::List(inner) => inner.len(),
            },
        );
        assert(encode(items[0]).len() >= 1);
        lemma_encode_all_length(items.drop_first());
    }
}

/// The number written in front of a tree is read back, whatever stands before the tree
/// and behind the number's mark.
proof fn lemma_number_read_back(text: Seq<char>, at: int, value: nat, mark: char)
    requires
        0 <= at,
        at + digits(value).len() < text.len(),
        text.subrange(at, at + digits(value).len()) == digits(value),
        text[at + digits(value).len()] == mark,
        !is_digit(mark),
    ensures
        number_at(text, at) == Some((value, at + digits(value).len())),
{
    let end = at + digits(value).len();
    lemma_digits_read_back(value);
    assert forall|i: int| at <= i < end implies is_digit(#[trigger] text[i]) by {
        assert(text[i] == digits(value)[i - at]);
    }
    lemma_digits_end_is(text, at, end);
    lemma_scan_digits(text, at, value);
}

/// Nothing is lost in the text: a tree that is written down, with whatever text before it
/// and behind it, is read back as it was, and reading ends where the tree's text ends.
pub proof fn lemma_decode_encode(before: Seq<char>, node: Node, behind: Seq<char>)
    ensures
        decode(before + encode(node) + behind, before.len() as int) == Some(
            (node, (before.len() + encode(node).len()) as int),
        ),
    decreases node, 0nat,
{
    let text = before + encode(node) + behind;
    let at = before.len() as int;
    match node {
        Node::Text(content) => {
            let length = digits(content.len());
            assert(text.subrange(at, at + length.len()) =~= length);
            assert(text[at + length.len()] == ':');
            lemma_number_read_back(text, at, content.len(), ':');
            let mark = at + length.len();
            assert(text.subrange(mark + 1, mark + 1 + content.len()) =~= content);
        },
        Node::List(items) => {
            let length = digits(items.len());
            assert(text.subrange(at, at + length.len()) =~= length);
            assert(text[at + length.len()] == '[');
            lemma_number_read_back(text, at, items.len(), '[');
            lemma_encode_all_length(items);
            let head = before + length + seq!['['];
            assert(text =~= head + encode_all(items) + behind);
            lemma_decode_all_encode_all(head, items, behind);
        },
    }
}

/// Nothing is lost in the text of a run of trees either.
pub proof fn lemma_decode_all_encode_all(before: Seq<char>, items: Seq<Node>, behind: Seq<char>)
    ensures
        decode_all(before + encode_all(items) + behind, before.len() as int, items.len()) == Some(
            (items, (before.len() + encode_all(items).len()) as int),
        ),
    decreases items, 1nat,
{
    let text = before + encode_all(items) + behind;
    if items.len() == 0 {
        assert(items =~= Seq::empty());
    } else {
        let first = items[0];
        let rest = items.drop_first();
        assert(text =~= before + encode(first) + (encode_all(rest) + behind));
        lemma_decode_encode(before, first, encode_all(rest) + behind);
        lemma_digits_read_back(
            match first {
                Node::Text(content) => content.len(),
                Node::List(inner) => inner.len(),
            },
        );
        let head = before + encode(first);
        assert(text =~= head + encode_all(rest) + behind);
        lemma_decode_all_encode_all(head, rest, behind);
        assert(seq![first] + rest =~= items);
    }
}

/// Scanning further never gives less.
proof fn lemma_scan_grows(text: Seq<char>, at: int, end: int, further: int)
    requires
        at <= end <= further,
    ensures
        scan(text, at, end, 0) <= scan(text, at, further, 0),
    decreases further - end,
{
    if end < further {
        lemma_scan_grows(text, at, end, further - 1);
    }
}

/// Appends a number in decimal to `out`.
fn write_number(value: usize, out: &mut String)
    ensures
        final(out)@ == old(out)@ + digits(value as nat),
    decreases value,
{
    if value >= 10 {
        write_number(value / 10, out);
    }
    let last = value % 10;
    let written = if last == 0 {
        "0"
    } else if last == 1 {
        "1"
    } else if last == 2 {
        "2"
    } else if last == 3 {
        "3"
    } else if last == 4 {
        "4"
    } else if last == 5 {
        "5"
    } else if last == 6 {
        "6"
    } else if last == 7 {
        "7"
    } else if last == 8 {
        "8"
    } else {
        "9"
    };
    proof {
        reveal_strlit("0");
        reveal_strlit("1");
        reveal_strlit("2");
        reveal_strlit("3");
        reveal_strlit("4");
        reveal_strlit("5");
        reveal_strlit("6");
        reveal_strlit("7");
        reveal_strlit("8");
        reveal_strlit("9");
        assert(written@ =~= seq![digit(last as nat)]);
        if value < 10 {
            assert(old(out)@ + seq![digit(last as nat)] =~= old(out)@ + digits(value as nat));
        } else {
            assert(old(out)@ + digits((value / 10) as nat) + seq![digit(last as nat)] =~= old(
                out,
            )@ + digits(value as nat));
        }
    }
    out.append(written);
}

/// Reads the number written at `at`. `None` where no digit stands there, and where the
/// number is too large to be a length.
fn read_number(text: &str, total: usize, at: usize) -> (r: Option<(usize, usize)>)
    requires
        total == text@.len(),
    ensures
        match r {
            Some((value, end)) => number_at(text@, at as int) == Some((value as nat, end as int))
                && at < end <= total,
            None => number_at(text@, at as int) matches Some((value, _)) ==> value > usize::MAX,
        },
{
    let mut i: usize = at;
    let mut value: usize = 0;
    let mut more = true;
    while i < total && more
        invariant
            total == text@.len(),
            at <= i,
            i <= total || i == at,
            forall|j: int| at <= j < i ==> is_digit(#[trigger] text@[j]),
            value == scan(text@, at as int, i as int, 0),
            !more ==> i < total && !is_digit(text@[i as int]),
        decreases total - i + (if more { 1int } else { 0int }),
    {
        let c = text.get_char(i);
        if '0' <= c && c <= '9' {
            let d = (c as u32 - '0' as u32) as usize;
            if value > (usize::MAX - d) / 10 {
                proof {
                    lemma_digits_end_bounds(text@, at as int);
                    let end = digits_end(text@, at as int);
                    assert(end > i) by {
                        lemma_digits_end_bounds(text@, i as int);
                        if end <= i {
                            lemma_digits_end_is(text@, at as int, end);
                        }
                        lemma_digits_end_reaches(text@, at as int, i as int + 1);
                    }
                    lemma_scan_grows(text@, at as int, i as int + 1, end);
                }
                return None;
            }
            value = value * 10 + d;
            i += 1;
        } else {
            more = false;
        }
    }
    if i == at {
        proof {
            if at < total {
                assert(!is_digit(text@[at as int]));
            }
        }
        return None;
    }
    proof {
        lemma_digits_end_is(text@, at as int, i as int);
    }
    Some((value, i))
}

/// Where digits stand from `at` up to `end`, the digits that start at `at` end no earlier.
proof fn lemma_digits_end_reaches(text: Seq<char>, at: int, end: int)
    requires
        0 <= at <= end <= text.len(),
        forall|i: int| at <= i < end ==> is_digit(#[trigger] text[i]),
    ensures
        digits_end(text, at) >= end,
    decreases end - at,
{
    if at < end {
        assert(is_digit(text[at]));
        lemma_digits_end_reaches(text, at + 1, end);
    } else {
        lemma_digits_end_bounds(text, at);
    }
}

/// Appends a text, with its length in front, to `out`.
pub fn write_text(text: &str, out: &mut String)
    ensures
        final(out)@ == old(out)@ + encode(Node::Text(text@)),
{
    let ghost before = out@;
    write_number(text.unicode_len(), out);
    out.append(":");
    out.append(text);
    proof {
        reveal_strlit(":");
        assert(":"@ =~= seq![':']);
        assert(out@ =~= before + (digits(text@.len()) + seq![':'] + text@));
    }
}

/// Appends the head of a list of `count` items to `out`; the items are to follow.
pub fn write_list(count: usize, out: &mut String)
    ensures
        final(out)@ == old(out)@ + digits(count as nat) + seq!['['],
{
    write_number(count, out);
    out.append("[");
    proof {
        reveal_strlit("[");
        assert("["@ =~= seq!['[']);
    }
}

/// Reads the text written at `at`, and says where it ends. `None` where no text is written
/// there.
pub fn read_text(text: &str, at: usize) -> (r: Option<(String, usize)>)
    ensures
        match r {
            Some((content, next)) => decode(text@, at as int) == Some(
                (Node::Text(content@), next as int),
            ) && at < next <= text@.len(),
            None => !(decode(text@, at as int) matches Some((Node::Text(_), _))),
        },
{
    let total = text.unicode_len();
    match read_number(text, total, at) {
        None => None,
        Some((length, mark)) => {
            if mark >= total {
                return None;
            }
            if text.get_char(mark) != ':' {
                return None;
            }
            if length > total - (mark + 1) {
                return None;
            }
            let content = text.substring_char(mark + 1, mark + 1 + length);
            Some((String::from_str(content), mark + 1 + length))
        },
    }
}

/// What the head of a list that is written at `at` promises: the list's items, read from
/// `next`, are `count` trees.
pub open spec fn list_at(text: Seq<char>, at: int, count: nat, next: int) -> bool {
    &&& at < next <= text.len()
    &&& count <= text.len()
    &&& decode(text, at) == match decode_all(text, next, count) {
        Some((items, end)) => Some((Node::List(items), end)),
        None => None,
    }
}

/// Reads the head of the list written at `at`: the number of its items, and where they
/// start. `None` where no list is written there.
pub fn read_list(text: &str, at: usize) -> (r: Option<(usize, usize)>)
    ensures
        match r {
            Some((count, next)) => list_at(text@, at as int, count as nat, next as int),
            None => !(decode(text@, at as int) matches Some((Node::List(_), _))),
        },
{
    let total = text.unicode_len();
    match read_number(text, total, at) {
        None => None,
        Some((count, mark)) => {
            if mark >= total {
                return None;
            }
            if text.get_char(mark) != '[' {
                return None;
            }
            if count > total {
                return None;
            }
            Some((count, mark + 1))
        },
    }
}

/// A run of trees with one more tree behind it is written as the run, then the tree.
pub proof fn lemma_encode_all_push(items: Seq<Node>, last: Node)
    ensures
        encode_all(items.push(last)) == encode_all(items) + encode(last),
    decreases items.len(),
{
    let pushed = items.push(last);
    if items.len() == 0 {
        assert(pushed.drop_first() =~= Seq::<Node>::empty());
        assert(encode_all(pushed.drop_first()) =~= Seq::<char>::empty());
        assert(encode_all(pushed) =~= encode(last));
        assert(encode_all(items) + encode(last) =~= encode(last));
    } else {
        assert(pushed.drop_first() =~= items.drop_first().push(last));
        lemma_encode_all_push(items.drop_first(), last);
        assert(encode_all(pushed) =~= encode_all(items) + encode(last));
    }
}

/// The text of a list, item by item.
pub proof fn lemma_encode_list(items: Seq<Node>)
    ensures
        items.len() == 0 ==> encode_all(items) == Seq::<char>::empty(),
        items.len() == 1 ==> encode_all(items) == encode(items[0]),
        items.len() == 2 ==> encode_all(items) == encode(items[0]) + encode(items[1]),
        items.len() == 3 ==> encode_all(items) == encode(items[0]) + encode(items[1]) + encode(
            items[2],
        ),
        items.len() == 4 ==> encode_all(items) == encode(items[0]) + encode(items[1]) + encode(
            items[2],
        ) + encode(items[3]),
        items.len() == 5 ==> encode_all(items) == encode(items[0]) + encode(items[1]) + encode(
            items[2],
        ) + encode(items[3]) + encode(items[4]),
        items.len() == 6 ==> encode_all(items) == encode(items[0]) + encode(items[1]) + encode(
            items[2],
        ) + encode(items[3]) + encode(items[4]) + encode(items[5]),
    decreases items.len(),
{
    if 0 < items.len() <= 6 {
        let front = items.drop_last();
        lemma_encode_list(front);
        assert(items =~= front.push(items.last()));
        lemma_encode_all_push(front, items.last());
        if items.len() == 1 {
            assert(encode_all(items) =~= encode(items[0]));
        }
    }
}

/// Reading one tree more: where `done` trees are read from `start` up to `at`, and one
/// more tree is written at `at`, the trees read from `start` are `done` and that tree.
pub proof fn lemma_decode_all_push(
    text: Seq<char>,
    start: int,
    done: Seq<Node>,
    at: int,
    last: Node,
    next: int,
)
    requires
        0 <= start <= text.len(),
        decode_all(text, start, done.len()) == Some((done, at)),
        decode(text, at) == Some((last, next)),
    ensures
        decode_all(text, start, done.len() + 1) == Some((done.push(last), next)),
    decreases done.len(),
{
    lemma_decode_advances(text, at);
    if done.len() == 0 {
        assert(decode_all(text, next, 0) == Some((Seq::<Node>::empty(), next)));
        assert(seq![last] + Seq::<Node>::empty() =~= done.push(last));
    } else {
        lemma_decode_advances(text, start);
        match decode(text, start) {
            Some((first, second)) => {
                match decode_all(text, second, (done.len() - 1) as nat) {
                    Some((rest, end)) => {
                        assert(done == seq![first] + rest);
                        assert(rest =~= done.drop_first());
                        lemma_decode_all_push(text, second, rest, at, last, next);
                        assert(seq![first] + rest.push(last) =~= done.push(last));
                    },
                    None => {},
                }
            },
            None => {},
        }
    }
}

/// Where a run of trees is read from `start`, its first `done` trees are read from
/// `start` too, and the next tree is written where they end.
pub proof fn lemma_decode_all_prefix(text: Seq<char>, start: int, items: Seq<Node>, done: int)
    requires
        0 <= start <= text.len(),
        0 <= done < items.len(),
        decode_all(text, start, items.len()) matches Some((read, _)) && read == items,
    ensures
        decode_all(text, start, done as nat) matches Some((read, at)) && read == items.take(done)
            && (decode(text, at) matches Some((next, _)) && next == items[done]),
    decreases done,
{
    lemma_decode_advances(text, start);
    match decode(text, start) {
        Some((first, second)) => {
            match decode_all(text, second, (items.len() - 1) as nat) {
                Some((rest, end)) => {
                    assert(items == seq![first] + rest);
                    if done == 0 {
                        assert(items.take(0) =~= Seq::<Node>::empty());
                    } else {
                        assert(rest =~= items.drop_first());
                        lemma_decode_all_prefix(text, second, rest, done - 1);
                        assert(seq![first] + rest.take(done - 1) =~= items.take(done));
                    }
                },
                None => {},
            }
        },
        None => {},
    }
}

/// A value that the registry can keep as text.
///
/// The value is laid out as a tree, the tree is written down, and reading the text gives
/// the value back: the tree tells the value, and the text tells the tree.
pub trait Stored: DeepView + Sized {
    /// The tree that a value is laid out as.
    spec fn node_of(value: <Self as DeepView>::V) -> Node;

    /// No two values are laid out as the same tree.
    proof fn lemma_node_tells_value(a: <Self as DeepView>::V, b: <Self as DeepView>::V)
        requires
            Self::node_of(a) == Self::node_of(b),
        ensures
            a == b,
    ;

    /// Appends the value's text to `out`.
    fn write(&self, out: &mut String)
        ensures
            final(out)@ == old(out)@ + encode(Self::node_of(self.deep_view())),
    ;

    /// Reads the value whose text stands at `at`, and says where the text ends. `None`
    /// exactly where the tree written there, if any, is the tree of no value.
    fn read(text: &str, at: usize) -> (r: Option<(Self, usize)>)
        ensures
            match r {
                Some((value, next)) => decode(text@, at as int) == Some(
                    (Self::node_of(value.deep_view()), next as int),
                ) && at < next <= text@.len(),
                None => forall|value: <Self as DeepView>::V|
                    !(decode(text@, at as int) matches Some((node, _)) && node
                        == #[trigger] Self::node_of(value)),
            },
    ;
}

/// A list whose items are being read one after another.
pub struct ListReader<'a> {
    text: &'a str,
    /// Where the next item stands.
    at: usize,
    /// How many items are still to be read.
    left: usize,
    /// Where the list itself stands.
    list: Ghost<int>,
    /// Where its first item stands.
    start: Ghost<int>,
    /// The items read so far.
    done: Ghost<Seq<Node>>,
}

impl<'a> ListReader<'a> {
    /// The text that is read.
    pub closed spec fn text(&self) -> Seq<char> {
        self.text@
    }

    /// Where the list stands.
    pub closed spec fn list(&self) -> int {
        self.list@
    }

    /// The items read so far.
    pub closed spec fn done(&self) -> Seq<Node> {
        self.done@
    }

    /// How many items are still to be read.
    pub closed spec fn left(&self) -> nat {
        self.left as nat
    }

    /// What holds of a reader at all times: a list of `done` and `left` items is announced
    /// where the list stands, and the items read so far stand in front of the next.
    pub closed spec fn wf(&self) -> bool {
        &&& list_at(self.text@, self.list@, self.done@.len() + self.left as nat, self.start@)
        &&& decode_all(self.text@, self.start@, self.done@.len()) == Some(
            (self.done@, self.at as int),
        )
        &&& 0 <= self.list@ < self.start@ <= self.at <= self.text@.len()
    }

    /// Starts to read the list written at `at`. `None` where no list is written there.
    pub fn open(text: &'a str, at: usize) -> (r: Option<ListReader<'a>>)
        ensures
            match r {
                Some(reader) => reader.wf() && reader.text() == text@ && reader.list() == at
                    && reader.done().len() == 0,
                None => !(decode(text@, at as int) matches Some((Node::List(_), _))),
            },
    {
        match read_list(text, at) {
            None => None,
            Some((count, start)) => Some(
                ListReader {
                    text,
                    at: start,
                    left: count,
                    list: Ghost(at as int),
                    start: Ghost(start as int),
                    done: Ghost(Seq::empty()),
                },
            ),
        }
    }

    /// The list that is read has as many items as are read and are left, if it is a list
    /// at all.
    pub proof fn lemma_announced(&self)
        requires
            self.wf(),
        ensures
            decode(self.text(), self.list()) matches Some((Node::List(items), _))
                ==> items.len() == self.done().len() + self.left(),
    {
        lemma_decode_all_advances(self.text@, self.start@, self.done@.len() + self.left as nat);
    }

    /// The items read so far are the first items of the list that is read, if it is a
    /// list at all.
    pub proof fn lemma_read_so_far(&self)
        requires
            self.wf(),
        ensures
            decode(self.text(), self.list()) matches Some((Node::List(items), _)) ==> {
                &&& items.len() == self.done().len() + self.left()
                &&& forall|i: int| 0 <= i < self.done().len() ==> #[trigger] items[i] == self.done()[i]
            },
    {
        let count = self.done@.len() + self.left as nat;
        lemma_decode_all_advances(self.text@, self.start@, count);
        match decode(self.text@, self.list@) {
            Some((Node::List(items), _)) => {
                if self.left > 0 {
                    lemma_decode_all_prefix(self.text@, self.start@, items, self.done@.len() as int);
                }
            },
            _ => {},
        }
    }

    /// How many items are still to be read.
    pub fn remaining(&self) -> (r: usize)
        ensures
            r == self.left(),
    {
        self.left
    }

    /// Reads the next item as a value of `T`. `None` where no item is left, and where the
    /// next item is the tree of no value of `T`; the reader then stays where it is.
    pub fn item<T: Stored>(&mut self) -> (r: Option<T>)
        requires
            old(self).wf(),
        ensures
            final(self).wf(),
            final(self).text() == old(self).text(),
            final(self).list() == old(self).list(),
            match r {
                Some(value) => old(self).left() > 0 && final(self).left() == old(self).left() - 1
                    && final(self).done() == old(self).done().push(
                    T::node_of(value.deep_view()),
                ),
                None => final(self).left() == old(self).left() && final(self).done() == old(
                    self,
                ).done() && (old(self).left() > 0 ==> match decode(
                    old(self).text(),
                    old(self).list(),
                ) {
                    Some((Node::List(items), _)) => items.len() == old(self).done().len() + old(
                        self,
                    ).left() && forall|value: <T as DeepView>::V|
                        items[old(self).done().len() as int] != #[trigger] T::node_of(value),
                    _ => true,
                }),
            },
    {
        if self.left == 0 {
            return None;
        }
        match T::read(self.text, self.at) {
            Some((value, next)) => {
                proof {
                    lemma_decode_all_push(
                        self.text@,
                        self.start@,
                        self.done@,
                        self.at as int,
                        T::node_of(value.deep_view()),
                        next as int,
                    );
                }
                self.at = next;
                self.left = self.left - 1;
                self.done = Ghost(self.done@.push(T::node_of(value.deep_view())));
                Some(value)
            },
            None => {
                proof {
                    let count = self.done@.len() + self.left as nat;
                    match decode(self.text@, self.list@) {
                        Some((Node::List(items), _)) => {
                            lemma_decode_all_advances(self.text@, self.start@, count);
                            lemma_decode_all_prefix(
                                self.text@,
                                self.start@,
                                items,
                                self.done@.len() as int,
                            );
                        },
                        _ => {},
                    }
                }
                None
            },
        }
    }

    /// Ends the reading of a list whose items are all read, and says where the list ends.
    pub fn close(self) -> (r: usize)
        requires
            self.wf(),
            self.left() == 0,
        ensures
            decode(self.text(), self.list()) == Some((Node::List(self.done()), r as int)),
            self.list() < r <= self.text().len(),
    {
        self.at
    }
}

impl Stored for String {
    open spec fn node_of(value: Seq<char>) -> Node {
        Node::Text(value)
    }

    proof fn lemma_node_tells_value(a: Seq<char>, b: Seq<char>) {
    }

    fn write(&self, out: &mut String) {
        write_text(self.as_str(), out);
    }

    fn read(text: &str, at: usize) -> (r: Option<(String, usize)>) {
        read_text(text, at)
    }
}

/// Whether `text` is, from its first character to its last, the text of the tree of
/// `value`.
pub open spec fn keeps<T: Stored>(text: Seq<char>, value: <T as DeepView>::V) -> bool {
    decode(text, 0) == Some((T::node_of(value), text.len() as int))
}

/// The value that a text keeps, if it keeps one.
pub open spec fn kept<T: Stored>(text: Seq<char>) -> Option<<T as DeepView>::V> {
    if exists|value: <T as DeepView>::V| keeps::<T>(text, value) {
        Some(choose|value: <T as DeepView>::V| keeps::<T>(text, value))
    } else {
        None
    }
}

/// A text keeps at most one value.
pub proof fn lemma_keeps_one<T: Stored>(
    text: Seq<char>,
    a: <T as DeepView>::V,
    b: <T as DeepView>::V,
)
    requires
        keeps::<T>(text, a),
        keeps::<T>(text, b),
    ensures
        a == b,
        kept::<T>(text) == Some(a),
{
    T::lemma_node_tells_value(a, b);
    let chosen = choose|value: <T as DeepView>::V| keeps::<T>(text, value);
    T::lemma_node_tells_value(a, chosen);
}

/// Keeping a value as text loses nothing: the text that a value is written as keeps that
/// value, and no other.
pub proof fn lemma_nothing_lost<T: Stored>(value: <T as DeepView>::V)
    ensures
        keeps::<T>(encode(T::node_of(value)), value),
        kept::<T>(encode(T::node_of(value))) == Some(value),
{
    let written = encode(T::node_of(value));
    lemma_decode_encode(Seq::empty(), T::node_of(value), Seq::empty());
    assert(Seq::<char>::empty() + written + Seq::<char>::empty() =~= written);
    lemma_keeps_one::<T>(written, value, value);
}

/// Writes a value as the text that keeps it.
pub fn to_text<T: Stored>(value: &T) -> (r: String)
    ensures
        r@ == encode(T::node_of(value.deep_view())),
        kept::<T>(r@) == Some(value.deep_view()),
{
    let mut text = String::new();
    value.write(&mut text);
    proof {
        assert(text@ =~= encode(T::node_of(value.deep_view())));
        lemma_nothing_lost::<T>(value.deep_view());
    }
    text
}

/// Reads the value that a text keeps; `None` where it keeps none.
pub fn from_text<T: Stored>(text: &str) -> (r: Option<T>)
    ensures
        r.deep_view() == kept::<T>(text@),
{
    match T::read(text, 0) {
        Some((value, next)) => {
            if next == text.unicode_len() {
                proof {
                    lemma_keeps_one::<T>(text@, value.deep_view(), value.deep_view());
                }
                Some(value)
            } else {
                proof {
                    assert forall|other: <T as DeepView>::V| !keeps::<T>(text@, other) by {}
                }
                None
            }
        },
        None => {
            proof {
                assert forall|other: <T as DeepView>::V| !keeps::<T>(text@, other) by {
                    let node = T::node_of(other);
                }
            }
            None
        },
    }
}

} // verus!
