//! Completion of the line that is typed into a device's shell.

use vstd::prelude::*;
use vstd::string::*;
use crate::messages::PtyCompleteResult;
use crate::order;
use crate::order::is_less;
use crate::text;

verus! {

pub const MAX_COMPLETION_CANDIDATES: usize = 256;

pub open spec fn is_quote(c: char) -> bool {
    c == '\'' || c == '"'
}

/// A character outside quotes that ends a command.
pub open spec fn ends_command(c: char) -> bool {
    c == '|' || c == ';' || c == '&' || c == '(' || c == ')'
}

/// A character outside quotes that ends a word.
pub open spec fn ends_word(c: char) -> bool {
    text::is_space(c) || ends_command(c) || c == '<' || c == '>'
}

/// The quote that is open after a text, if one is.
pub open spec fn open_quote(s: Seq<char>) -> Option<char>
    decreases s.len(),
{
    if s.len() == 0 {
        None
    } else {
        let c = s.last();
        match open_quote(s.drop_last()) {
            Some(q) => if c == q {
                None
            } else {
                Some(q)
            },
            None => if is_quote(c) {
                Some(c)
            } else {
                None
            },
        }
    }
}

/// Where the word that a text ends in begins: behind the last character that ends a word, and
/// behind a quote right there.
pub open spec fn token_start(s: Seq<char>) -> nat
    decreases s.len(),
{
    if s.len() == 0 {
        0
    } else {
        let before = token_start(s.drop_last());
        let here = (s.len() - 1) as nat;
        if open_quote(s.drop_last()) is Some {
            before
        } else if is_quote(s.last()) {
            if before == here {
                s.len()
            } else {
                before
            }
        } else if ends_word(s.last()) {
            s.len()
        } else {
            before
        }
    }
}

/// Where the command that a text ends in begins.
pub open spec fn segment_start(s: Seq<char>) -> nat
    decreases s.len(),
{
    if s.len() == 0 {
        0
    } else if open_quote(s.drop_last()) is None && !is_quote(s.last()) && ends_command(s.last()) {
        s.len()
    } else {
        segment_start(s.drop_last())
    }
}

pub proof fn lemma_starts_within(s: Seq<char>)
    ensures
        token_start(s) <= s.len(),
        segment_start(s) <= s.len(),
    decreases s.len(),
{
    if s.len() > 0 {
        lemma_starts_within(s.drop_last());
    }
}

fn is_command_end(c: char) -> (r: bool)
    ensures
        r == ends_command(c),
{
    c == '|' || c == ';' || c == '&' || c == '(' || c == ')'
}

fn token_start_in(chars: &[char], cursor: usize) -> (r: usize)
    requires
        cursor <= chars@.len(),
    ensures
        r == token_start(chars@.take(cursor as int)),
        r <= cursor,
{
    let mut start: usize = 0;
    let mut quote: Option<char> = None;
    let mut i: usize = 0;
    assert(chars@.take(0) =~= Seq::<char>::empty());
    while i < cursor
        invariant
            i <= cursor <= chars@.len(),
            start <= i,
            start == token_start(chars@.take(i as int)),
            quote == open_quote(chars@.take(i as int)),
        decreases cursor - i,
    {
        let c = chars[i];
        proof {
            assert(chars@.take(i + 1).drop_last() =~= chars@.take(i as int));
        }
        match quote {
            Some(active) => {
                if c == active {
                    quote = None;
                }
            },
            None => {
                if c == '\'' || c == '"' {
                    quote = Some(c);
                    if start == i {
                        start = i + 1;
                    }
                } else if c.is_whitespace() || is_command_end(c) || c == '<' || c == '>' {
                    start = i + 1;
                }
            },
        }
        i += 1;
    }
    start
}

fn segment_start_in(chars: &[char], cursor: usize) -> (r: usize)
    requires
        cursor <= chars@.len(),
    ensures
        r == segment_start(chars@.take(cursor as int)),
        r <= cursor,
{
    let mut start: usize = 0;
    let mut quote: Option<char> = None;
    let mut i: usize = 0;
    assert(chars@.take(0) =~= Seq::<char>::empty());
    while i < cursor
        invariant
            i <= cursor <= chars@.len(),
            start <= i,
            start == segment_start(chars@.take(i as int)),
            quote == open_quote(chars@.take(i as int)),
        decreases cursor - i,
    {
        let c = chars[i];
        proof {
            assert(chars@.take(i + 1).drop_last() =~= chars@.take(i as int));
        }
        match quote {
            Some(active) => {
                if c == active {
                    quote = None;
                }
            },
            None => {
                if c == '\'' || c == '"' {
                    quote = Some(c);
                } else if is_command_end(c) {
                    start = i + 1;
                }
            },
        }
        i += 1;
    }
    start
}

/// The byte at which the word begins that ends at a cursor, which is a byte position too.
pub fn completion_token_start(line: &str, cursor: usize) -> (r: usize)
    requires
        text::on_boundary(line@, cursor as nat),
    ensures
        r == text::byte_len(
            line@.take(
                token_start(line@.take(text::chars_within(line@, cursor as nat) as int)) as int,
            ),
        ),
{
    let limit: usize = line.as_bytes().len();
    let chars = text::chars_of(line);
    let k: usize = text::count_within(chars.as_slice(), cursor);
    let start: usize = token_start_in(chars.as_slice(), k);
    text::bytes_before(chars.as_slice(), start)
}

/// The first word of a text.
pub open spec fn first_word(s: Seq<char>) -> Seq<char>
    decreases s.len(),
{
    let t = text::trim_start(s);
    t.take(word_len(t) as int)
}

/// The number of characters before the first white space.
pub open spec fn word_len(s: Seq<char>) -> nat
    decreases s.len(),
{
    if s.len() == 0 || text::is_space(s[0]) {
        0
    } else {
        1 + word_len(s.drop_first())
    }
}

proof fn lemma_word_len(s: Seq<char>)
    ensures
        word_len(s) <= s.len(),
    decreases s.len(),
{
    if s.len() > 0 && !text::is_space(s[0]) {
        lemma_word_len(s.drop_first());
    }
}

/// What stands in the same command before a word.
pub open spec fn command_before(line: Seq<char>, start: nat) -> Seq<char> {
    let head = line.take(start as int);
    head.skip(segment_start(head) as int)
}

/// Whether the word that begins there is the command itself, and otherwise which command it
/// belongs to.
pub open spec fn context(line: Seq<char>, start: nat) -> (bool, Option<Seq<char>>) {
    let before = command_before(line, start);
    if text::trim_start(before).len() == 0 {
        (true, None)
    } else {
        (false, Some(first_word(before)))
    }
}

/// The command word before a word: its bounds in the line, if there is one.
fn command_bounds(chars: &[char], start: usize) -> (r: Option<(usize, usize)>)
    requires
        start <= chars@.len(),
    ensures
        match r {
            None => context(chars@, start as nat) == (true, None::<Seq<char>>),
            Some((from, to)) => from < to <= start && context(chars@, start as nat) == (
                false,
                Some(chars@.subrange(from as int, to as int)),
            ),
        },
{
    let segment: usize = segment_start_in(chars, start);
    let ghost before = command_before(chars@, start as nat);
    let mut from: usize = segment;
    assert(before =~= chars@.subrange(segment as int, start as int));
    while from < start && chars[from].is_whitespace()
        invariant
            segment <= from <= start <= chars@.len(),
            text::trim_start(before) == text::trim_start(
                chars@.subrange(from as int, start as int),
            ),
        decreases start - from,
    {
        assert(chars@.subrange(from as int, start as int).drop_first() =~= chars@.subrange(
            from + 1,
            start as int,
        ));
        from += 1;
    }
    if from == start {
        return None;
    }
    let ghost rest = chars@.subrange(from as int, start as int);
    assert(text::trim_start(before) == rest);
    let mut to: usize = from;
    assert(rest.skip(0) =~= rest);
    while to < start && !chars[to].is_whitespace()
        invariant
            from <= to <= start <= chars@.len(),
            rest == chars@.subrange(from as int, start as int),
            word_len(rest) == (to - from) + word_len(rest.skip(to - from)),
        decreases start - to,
    {
        assert(rest.skip(to - from)[0] == chars@[to as int]);
        assert(rest.skip(to - from).drop_first() =~= rest.skip(to + 1 - from));
        to += 1;
    }
    assert(word_len(rest) == to - from) by {
        if to < start {
            assert(rest.skip(to - from)[0] == chars@[to as int]);
        }
    }
    assert(rest.take(to - from) =~= chars@.subrange(from as int, to as int));
    assert(to > from) by {
        assert(!text::is_space(rest[0]));
        lemma_word_len(rest.drop_first());
    }
    Some((from, to))
}

/// Whether the word that begins at a byte of the line is the command itself, and otherwise which
/// command it belongs to.
pub fn command_context<'a>(line: &'a str, token_start: usize) -> (r: (bool, Option<&'a str>))
    requires
        text::on_boundary(line@, token_start as nat),
    ensures
        ({
            let (first, command) = context(line@, text::chars_within(line@, token_start as nat));
            &&& r.0 == first
            &&& match r.1 {
                Some(word) => command == Some(word@),
                None => command is None,
            }
        }),
{
    let chars = text::chars_of(line);
    let k: usize = text::count_within(chars.as_slice(), token_start);
    match command_bounds(chars.as_slice(), k) {
        None => (true, None),
        Some((from, to)) => (false, Some(line.substring_char(from, to))),
    }
}

/// The longest text that two texts begin with.
pub open spec fn common(a: Seq<char>, b: Seq<char>) -> Seq<char>
    decreases a.len(),
{
    if a.len() == 0 || b.len() == 0 || a[0] != b[0] {
        Seq::empty()
    } else {
        seq![a[0]] + common(a.drop_first(), b.drop_first())
    }
}

/// Two texts begin with what they have in common, and with nothing longer.
pub proof fn lemma_common_is_longest(a: Seq<char>, b: Seq<char>, p: Seq<char>)
    ensures
        text::starts_with(a, common(a, b)),
        text::starts_with(b, common(a, b)),
        text::starts_with(a, p) && text::starts_with(b, p) ==> text::starts_with(common(a, b), p),
    decreases a.len(),
{
    if a.len() == 0 || b.len() == 0 || a[0] != b[0] {
        assert(a.take(0) =~= Seq::<char>::empty());
        assert(b.take(0) =~= Seq::<char>::empty());
        if text::starts_with(a, p) && text::starts_with(b, p) {
            if p.len() > 0 {
                assert(a.take(p.len() as int)[0] == a[0]);
                assert(b.take(p.len() as int)[0] == b[0]);
            }
            assert(common(a, b).take(p.len() as int) =~= p);
        }
    } else {
        let a1 = a.drop_first();
        let b1 = b.drop_first();
        let c1 = common(a1, b1);
        let p1 = if p.len() > 0 {
            p.drop_first()
        } else {
            p
        };
        lemma_common_is_longest(a1, b1, p1);
        let n = c1.len() as int;
        assert(a.take(n + 1) =~= seq![a[0]] + a1.take(n));
        assert(b.take(n + 1) =~= seq![b[0]] + b1.take(n));
        if text::starts_with(a, p) && text::starts_with(b, p) {
            if p.len() == 0 {
                assert(common(a, b).take(0) =~= p);
            } else {
                assert(p[0] == a[0]) by {
                    assert(a.take(p.len() as int)[0] == a[0]);
                }
                assert(a1.take(p1.len() as int) =~= p1) by {
                    assert forall|i: int| 0 <= i < p1.len() implies a1[i] == p1[i] by {
                        assert(a.take(p.len() as int)[i + 1] == p[i + 1]);
                    }
                }
                assert(b1.take(p1.len() as int) =~= p1) by {
                    assert forall|i: int| 0 <= i < p1.len() implies b1[i] == p1[i] by {
                        assert(b.take(p.len() as int)[i + 1] == p[i + 1]);
                    }
                }
                assert(common(a, b).take(p.len() as int) =~= p) by {
                    assert forall|i: int| 0 <= i < p.len() implies common(a, b)[i] == p[i] by {
                        if i > 0 {
                            assert(c1.take(p1.len() as int)[i - 1] == p1[i - 1]);
                        }
                    }
                }
            }
        }
    }
}

fn common_len(a: &[char], b: &[char]) -> (r: usize)
    ensures
        r <= a@.len(),
        a@.take(r as int) == common(a@, b@),
{
    let mut i: usize = 0;
    assert(a@.skip(0) =~= a@);
    assert(b@.skip(0) =~= b@);
    assert(a@.take(0) + common(a@, b@) =~= common(a@, b@));
    while i < a.len() && i < b.len() && a[i] == b[i]
        invariant
            i <= a@.len(),
            i <= b@.len(),
            common(a@, b@) == a@.take(i as int) + common(a@.skip(i as int), b@.skip(i as int)),
        decreases a@.len() - i,
    {
        proof {
            let x = a@.skip(i as int);
            let y = b@.skip(i as int);
            assert(x.drop_first() =~= a@.skip(i + 1));
            assert(y.drop_first() =~= b@.skip(i + 1));
            assert(a@.take(i + 1) =~= a@.take(i as int) + seq![x[0]]);
            assert(a@.take(i as int) + common(x, y) =~= a@.take(i + 1) + common(
                a@.skip(i + 1),
                b@.skip(i + 1),
            ));
        }
        i += 1;
    }
    assert(common(a@.skip(i as int), b@.skip(i as int)) =~= Seq::<char>::empty());
    assert(a@.take(i as int) =~= common(a@, b@));
    i
}

/// What all of some texts begin with; nothing where there are none.
pub open spec fn common_all(values: Seq<Seq<char>>) -> Seq<char>
    decreases values.len(),
{
    if values.len() == 0 {
        Seq::empty()
    } else if values.len() == 1 {
        values[0]
    } else {
        common(common_all(values.drop_last()), values.last())
    }
}

proof fn lemma_starts_with_transitive(a: Seq<char>, b: Seq<char>, c: Seq<char>)
    requires
        text::starts_with(a, b),
        text::starts_with(b, c),
    ensures
        text::starts_with(a, c),
{
    assert(a.take(c.len() as int) =~= c) by {
        assert forall|i: int| 0 <= i < c.len() implies a[i] == c[i] by {
            assert(a.take(b.len() as int)[i] == b[i]);
            assert(b.take(c.len() as int)[i] == c[i]);
        }
    }
}

/// Each of some texts begins with what all of them begin with, and nothing longer has that
/// property.
pub proof fn lemma_common_all_is_longest(values: Seq<Seq<char>>, p: Seq<char>)
    requires
        values.len() > 0,
    ensures
        forall|i: int| 0 <= i < values.len() ==> text::starts_with(#[trigger] values[i], common_all(values)),
        (forall|i: int| 0 <= i < values.len() ==> text::starts_with(#[trigger] values[i], p))
            ==> text::starts_with(common_all(values), p),
    decreases values.len(),
{
    if values.len() == 1 {
        assert(values[0].take(values[0].len() as int) =~= values[0]);
    } else {
        let init = values.drop_last();
        lemma_common_all_is_longest(init, p);
        lemma_common_is_longest(common_all(init), values.last(), p);
        assert forall|i: int| 0 <= i < values.len() implies text::starts_with(
            #[trigger] values[i],
            common_all(values),
        ) by {
            if i < init.len() {
                assert(init[i] == values[i]);
                lemma_starts_with_transitive(values[i], common_all(init), common_all(values));
            }
        }
        if forall|i: int| 0 <= i < values.len() ==> text::starts_with(#[trigger] values[i], p) {
            assert forall|i: int| 0 <= i < init.len() implies text::starts_with(
                #[trigger] init[i],
                p,
            ) by {
                assert(values[i] == init[i]);
            }
        }
    }
}

/// Cuts a text down to what it has in common with another.
pub fn shrink_common_prefix(prefix: &mut Vec<char>, value: &[char])
    ensures
        final(prefix)@ == common(old(prefix)@, value@),
{
    let n: usize = common_len(prefix.as_slice(), value);
    let ghost before = prefix@;
    prefix.truncate(n);
    assert(prefix@ =~= before.take(n as int));
}

fn common_prefix(values: &[Vec<char>]) -> (r: Vec<char>)
    ensures
        r@ == common_all(text::contents(values@)),
{
    if values.len() == 0 {
        return Vec::new();
    }
    let mut prefix = text::copy_range(values[0].as_slice(), 0, values[0].len());
    let ghost all = text::contents(values@);
    assert(prefix@ =~= all[0]);
    let mut i: usize = 1;
    while i < values.len()
        invariant
            1 <= i <= values@.len(),
            all == text::contents(values@),
            prefix@ == common_all(all.take(i as int)),
        decreases values@.len() - i,
    {
        proof {
            let head = all.take(i + 1);
            assert(head.drop_last() =~= all.take(i as int));
            assert(head.last() == values@[i as int]@);
        }
        shrink_common_prefix(&mut prefix, values[i].as_slice());
        i += 1;
    }
    assert(all.take(i as int) =~= all);
    prefix
}

/// What all of some texts begin with.
pub fn common_completion_prefix(values: &[String]) -> (r: String)
    ensures
        r@ == common_all(crate::shell::views(values@)),
{
    let all = chars_of_each(values);
    text::string_of(common_prefix(all.as_slice()).as_slice())
}

fn chars_of_each(values: &[String]) -> (r: Vec<Vec<char>>)
    ensures
        text::contents(r@) == crate::shell::views(values@),
{
    let mut out: Vec<Vec<char>> = Vec::new();
    let mut i: usize = 0;
    while i < values.len()
        invariant
            i <= values@.len(),
            text::contents(out@) == crate::shell::views(values@).take(i as int),
        decreases values@.len() - i,
    {
        let ghost before = text::contents(out@);
        out.push(text::chars_of(values[i].as_str()));
        assert(text::contents(out@) =~= before.push(values@[i as int]@));
        i += 1;
        assert(text::contents(out@) =~= crate::shell::views(values@).take(i as int));
    }
    assert(crate::shell::views(values@).take(i as int) =~= crate::shell::views(values@));
    out
}

/// Each text comes before the next.
pub open spec fn ascending(values: Seq<Seq<char>>) -> bool {
    forall|i: int, j: int| 0 <= i < j < values.len() ==> order::less(#[trigger] values[i], #[trigger] values[j])
}

/// The given texts in order, each once.
pub open spec fn sorted_set(values: Seq<Seq<char>>, given: Seq<Seq<char>>) -> bool {
    &&& ascending(values)
    &&& forall|x: Seq<char>| #[trigger] values.contains(x) <==> given.contains(x)
}

proof fn lemma_ascending_bound(a: Seq<Seq<char>>, b: Seq<Seq<char>>, i: int)
    requires
        ascending(a),
        ascending(b),
        forall|x: Seq<char>| #[trigger] a.contains(x) <==> b.contains(x),
        0 <= i <= a.len(),
        i <= b.len(),
        forall|j: int| 0 <= j < i ==> a[j] == b[j],
        i < a.len(),
    ensures
        i < b.len(),
        !order::less(a[i], b[i]),
{
    assert(a.contains(a[i]));
    let k = choose|k: int| 0 <= k < b.len() && b[k] == a[i];
    if k < i {
        assert(a[k] == a[i]);
        order::lemma_less_is_order(a[k], a[i], a[i]);
    } else {
        if k > i {
            order::lemma_less_is_order(b[i], b[k], b[i]);
        } else {
            order::lemma_less_is_order(a[i], b[i], b[i]);
        }
    }
}

/// There is only one way to put the given texts in order.
pub proof fn lemma_sorted_set_unique(
    a: Seq<Seq<char>>,
    b: Seq<Seq<char>>,
    given: Seq<Seq<char>>,
    i: int,
)
    requires
        sorted_set(a, given),
        sorted_set(b, given),
        0 <= i <= a.len(),
        i <= b.len(),
        forall|j: int| 0 <= j < i ==> a[j] == b[j],
    ensures
        a == b,
    decreases a.len() - i,
{
    assert forall|x: Seq<char>| #[trigger] a.contains(x) <==> b.contains(x) by {
        assert(a.contains(x) <==> given.contains(x));
        assert(b.contains(x) <==> given.contains(x));
    }
    assert forall|x: Seq<char>| #[trigger] b.contains(x) <==> a.contains(x) by {
        assert(a.contains(x) <==> b.contains(x));
    }
    if i < a.len() {
        lemma_ascending_bound(a, b, i);
        lemma_ascending_bound(b, a, i);
        order::lemma_less_is_order(a[i], b[i], a[i]);
        lemma_sorted_set_unique(a, b, given, i + 1);
    } else if i < b.len() {
        lemma_ascending_bound(b, a, i);
    } else {
        assert(a =~= b);
    }
}

/// Puts a text where it belongs among others in order, unless it is there already.
fn insert_sorted(values: &mut Vec<Vec<char>>, value: Vec<char>)
    requires
        ascending(text::contents(old(values)@)),
    ensures
        ascending(text::contents(final(values)@)),
        forall|x: Seq<char>| #[trigger]
            text::contents(final(values)@).contains(x) <==> text::contents(old(values)@).contains(x)
                || x == value@,
{
    let ghost all = text::contents(values@);
    let ghost new = value@;
    let mut low: usize = 0;
    let mut high: usize = values.len();
    while low < high
        invariant
            low <= high <= values@.len(),
            all == text::contents(values@),
            new == value@,
            ascending(all),
            forall|i: int| 0 <= i < low ==> order::less(#[trigger] all[i], new),
            forall|i: int| high <= i < all.len() ==> !order::less(#[trigger] all[i], new),
        decreases high - low,
    {
        let mid: usize = low + (high - low) / 2;
        assert(all[mid as int] == values@[mid as int]@);
        if is_less(values[mid].as_slice(), value.as_slice()) {
            proof {
                assert forall|i: int| 0 <= i < mid + 1 implies order::less(#[trigger] all[i], new) by {
                    if i < mid {
                        order::lemma_less_is_order(all[i], all[mid as int], new);
                    }
                }
            }
            low = mid + 1;
        } else {
            proof {
                assert forall|i: int| mid <= i < all.len() implies !order::less(#[trigger] all[i], new) by {
                    if i > mid {
                        order::lemma_less_is_order(all[mid as int], all[i], new);
                    }
                }
            }
            high = mid;
        }
    }
    if low < values.len() {
        assert(all[low as int] == values@[low as int]@);
        if !is_less(value.as_slice(), values[low].as_slice()) {
            proof {
                order::lemma_less_is_order(all[low as int], new, new);
                assert(all.contains(new));
            }
            return;
        }
    }
    proof {
        assert forall|i: int| low <= i < all.len() implies order::less(new, #[trigger] all[i]) by {
            if i > low {
                order::lemma_less_is_order(new, all[low as int], all[i]);
            }
        }
    }
    values.insert(low, value);
    proof {
        let after = text::contents(values@);
        assert(after =~= all.insert(low as int, new));
        assert forall|i: int, j: int| 0 <= i < j < after.len() implies order::less(
            #[trigger] after[i],
            #[trigger] after[j],
        ) by {
            let a = if i < low {
                i
            } else {
                i - 1
            };
            let b = if j < low {
                j
            } else {
                j - 1
            };
            if i < low {
                assert(after[i] == all[i]);
            } else if i > low {
                assert(after[i] == all[i - 1]);
            }
            if j < low {
                assert(after[j] == all[j]);
            } else if j > low {
                assert(after[j] == all[j - 1]);
            }
        }
        assert forall|x: Seq<char>| #[trigger] after.contains(x) <==> all.contains(x) || x == new by {
            if after.contains(x) {
                let k = choose|k: int| 0 <= k < after.len() && after[k] == x;
                if k < low {
                    assert(all[k] == x);
                } else if k > low {
                    assert(all[k - 1] == x);
                }
            }
            if all.contains(x) {
                let k = choose|k: int| 0 <= k < all.len() && all[k] == x;
                if k < low {
                    assert(after[k] == x);
                } else {
                    assert(after[k + 1] == x);
                }
            }
            if x == new {
                assert(after[low as int] == x);
            }
        }
    }
}

/// The given texts in order, each once.
fn sort_and_dedup(given: &[Vec<char>]) -> (r: Vec<Vec<char>>)
    ensures
        sorted_set(text::contents(r@), text::contents(given@)),
{
    let mut out: Vec<Vec<char>> = Vec::new();
    let mut i: usize = 0;
    let ghost all = text::contents(given@);
    assert(text::contents(out@) =~= Seq::<Seq<char>>::empty());
    assert(all.take(0) =~= Seq::<Seq<char>>::empty());
    while i < given.len()
        invariant
            i <= given@.len(),
            all == text::contents(given@),
            sorted_set(text::contents(out@), all.take(i as int)),
        decreases given@.len() - i,
    {
        let ghost before = text::contents(out@);
        let value = text::copy_range(given[i].as_slice(), 0, given[i].len());
        assert(value@ =~= all[i as int]);
        insert_sorted(&mut out, value);
        proof {
            let head = all.take(i + 1);
            assert forall|x: Seq<char>| #[trigger]
                text::contents(out@).contains(x) <==> head.contains(x) by {
                assert(text::contents(out@).contains(x) <==> before.contains(x) || x
                    == all[i as int]);
                assert(before.contains(x) <==> all.take(i as int).contains(x));
                if all.take(i as int).contains(x) {
                    let k = choose|k: int| 0 <= k < i && all.take(i as int)[k] == x;
                    assert(head[k] == x);
                }
                if x == all[i as int] {
                    assert(head[i as int] == x);
                }
                if head.contains(x) {
                    let k = choose|k: int| 0 <= k < i + 1 && head[k] == x;
                    if k < i {
                        assert(all.take(i as int)[k] == x);
                    }
                }
            }
        }
        i += 1;
    }
    assert(all.take(i as int) =~= all);
    out
}

/// What a word is replaced by: the only candidate, or what all candidates begin with if that is
/// longer than what was typed.
pub open spec fn replacement(typed: Seq<char>, sorted: Seq<Seq<char>>) -> Seq<char> {
    if sorted.len() == 1 || (sorted.len() > 0 && text::byte_len(common_all(sorted))
        > text::byte_len(typed)) {
        common_all(sorted)
    } else {
        typed
    }
}

/// The answer to a request to complete the word from `start` to `cursor`, both counted in
/// characters, when these are the candidates.
pub open spec fn answers(
    result: PtyCompleteResult,
    line: Seq<char>,
    start: nat,
    cursor: nat,
    sorted: Seq<Seq<char>>,
) -> bool {
    let new = replacement(line.subrange(start as int, cursor as int), sorted);
    &&& result.line@ == line.take(start as int) + new + line.skip(cursor as int)
    &&& result.cursor == text::byte_len(line.take(start as int) + new) as u32
    &&& crate::shell::views(result.candidates@) == sorted.take(
        if sorted.len() < MAX_COMPLETION_CANDIDATES {
            sorted.len() as int
        } else {
            MAX_COMPLETION_CANDIDATES as int
        },
    )
    &&& result.candidate_count == sorted.len() as u32
}

proof fn lemma_prefix_bytes(s: Seq<char>, p: Seq<char>)
    requires
        text::starts_with(s, p),
        text::byte_len(s) <= text::byte_len(p),
    ensures
        s == p,
{
    let rest = s.skip(p.len() as int);
    assert(s =~= p + rest);
    text::lemma_encode_concat(p, rest);
    if rest.len() > 0 {
        assert(rest =~= seq![rest[0]] + rest.drop_first());
        text::lemma_encode_concat(seq![rest[0]], rest.drop_first());
        text::lemma_width(rest[0]);
    }
    assert(s =~= p);
}

/// A word becomes the longest text that all candidates for it begin with, however many they are:
/// it goes on from what was typed, nothing that all of them share is left out, and the only
/// candidate is taken whole. Without candidates it stays as it was typed.
pub proof fn lemma_word_is_completed(typed: Seq<char>, sorted: Seq<Seq<char>>)
    requires
        forall|i: int| 0 <= i < sorted.len() ==> text::starts_with(#[trigger] sorted[i], typed),
    ensures
        text::starts_with(replacement(typed, sorted), typed),
        forall|i: int|
            0 <= i < sorted.len() ==> text::starts_with(
                #[trigger] sorted[i],
                replacement(typed, sorted),
            ),
        sorted.len() > 0 ==> forall|p: Seq<char>|
            (forall|i: int| 0 <= i < sorted.len() ==> text::starts_with(#[trigger] sorted[i], p))
                ==> #[trigger] text::starts_with(replacement(typed, sorted), p),
        sorted.len() == 1 ==> replacement(typed, sorted) == sorted[0],
        sorted.len() == 0 ==> replacement(typed, sorted) == typed,
{
    assert(typed.take(typed.len() as int) =~= typed);
    if sorted.len() > 0 {
        lemma_common_all_is_longest(sorted, typed);
        if text::byte_len(common_all(sorted)) <= text::byte_len(typed) {
            lemma_prefix_bytes(common_all(sorted), typed);
        }
        assert(replacement(typed, sorted) == common_all(sorted));
        assert forall|p: Seq<char>|
            (forall|i: int| 0 <= i < sorted.len() ==> text::starts_with(#[trigger] sorted[i], p))
            implies #[trigger] text::starts_with(replacement(typed, sorted), p) by {
            lemma_common_all_is_longest(sorted, p);
        }
    }
}

/// An answer changes nothing but the word: what stands before and behind it stays, and the cursor
/// is put right behind the word. All candidates are counted; up to 256 are shown, the first ones,
/// and none is left out below that.
pub proof fn lemma_answer_changes_the_word_only(
    result: PtyCompleteResult,
    line: Seq<char>,
    start: nat,
    cursor: nat,
    sorted: Seq<Seq<char>>,
)
    requires
        start <= cursor <= line.len(),
        answers(result, line, start, cursor, sorted),
    ensures
        ({
            let word = replacement(line.subrange(start as int, cursor as int), sorted);
            let behind = (line.len() - cursor) as int;
            let at = start + word.len();
            &&& result.line@.len() == start + word.len() + behind
            &&& result.line@.take(start as int) == line.take(start as int)
            &&& result.line@.subrange(start as int, at as int) == word
            &&& result.line@.skip(at as int) == line.skip(cursor as int)
            &&& text::byte_len(result.line@) <= u32::MAX ==> text::byte_len(
                result.line@.take(at as int),
            ) == result.cursor
            &&& sorted.len() <= u32::MAX ==> result.candidate_count == sorted.len()
            &&& result.candidates@.len() <= 256
            &&& sorted.len() <= 256 ==> crate::shell::views(result.candidates@) == sorted
            &&& sorted.len() > 256 ==> result.candidates@.len() == 256
            &&& forall|i: int|
                0 <= i < result.candidates@.len() ==> (#[trigger] result.candidates@[i])@
                    == sorted[i]
        }),
{
    let word = replacement(line.subrange(start as int, cursor as int), sorted);
    let head = line.take(start as int) + word;
    let at = (start + word.len()) as int;
    assert(result.line@.take(start as int) =~= line.take(start as int));
    assert(result.line@.subrange(start as int, at) =~= word);
    assert(result.line@.skip(at) =~= line.skip(cursor as int));
    assert(result.line@.take(at) =~= head);
    text::lemma_encode_concat(head, line.skip(cursor as int));
    let shown = crate::shell::views(result.candidates@);
    assert(shown.len() == result.candidates@.len());
    assert forall|i: int| 0 <= i < result.candidates@.len() implies (
    #[trigger] result.candidates@[i])@ == sorted[i] by {
        assert(shown[i] == result.candidates@[i]@);
    }
    if sorted.len() <= 256 {
        assert(shown =~= sorted);
    }
}

fn byte_count(s: &str) -> (r: usize)
    ensures
        r == text::byte_len(s@),
{
    s.as_bytes().len()
}

/// The answer to a request, from the candidates in any order.
fn finish_completion(chars: &[char], start: usize, cursor: usize, given: &[Vec<char>]) -> (r:
    PtyCompleteResult)
    requires
        start <= cursor <= chars@.len(),
    ensures
        exists|sorted: Seq<Seq<char>>|
            sorted_set(sorted, text::contents(given@)) && #[trigger] answers(
                r,
                chars@,
                start as nat,
                cursor as nat,
                sorted,
            ),
{
    let sorted = sort_and_dedup(given);
    let ghost all = text::contents(sorted@);
    let typed = text::string_of(text::copy_range(chars, start, cursor).as_slice());
    let prefix = text::string_of(common_prefix(sorted.as_slice()).as_slice());
    let new = if sorted.len() == 1 || (sorted.len() > 0 && byte_count(prefix.as_str())
        > byte_count(typed.as_str())) {
        prefix
    } else {
        typed
    };
    assert(new@ == replacement(chars@.subrange(start as int, cursor as int), all));
    let mut head = text::string_of(text::copy_range(chars, 0, start).as_slice());
    assert(head@ =~= chars@.take(start as int));
    head.append(new.as_str());
    let after: usize = byte_count(head.as_str());
    let tail = text::string_of(text::copy_range(chars, cursor, chars.len()).as_slice());
    assert(tail@ =~= chars@.skip(cursor as int));
    let line = text::cat2(head.as_str(), tail.as_str());
    let shown: usize = if sorted.len() < MAX_COMPLETION_CANDIDATES {
        sorted.len()
    } else {
        MAX_COMPLETION_CANDIDATES
    };
    let mut candidates: Vec<String> = Vec::new();
    let mut i: usize = 0;
    while i < shown
        invariant
            i <= shown <= sorted@.len(),
            all == text::contents(sorted@),
            crate::shell::views(candidates@) == all.take(i as int),
        decreases shown - i,
    {
        let ghost before = crate::shell::views(candidates@);
        candidates.push(text::string_of(sorted[i].as_slice()));
        assert(crate::shell::views(candidates@) =~= before.push(sorted@[i as int]@));
        i += 1;
        assert(crate::shell::views(candidates@) =~= all.take(i as int));
    }
    let r = PtyCompleteResult {
        line,
        cursor: after as u32,
        candidates,
        candidate_count: sorted.len() as u32,
    };
    assert(answers(r, chars@, start as nat, cursor as nat, all));
    r
}

/// One entry of a directory.
#[derive(Debug)]
pub struct DirEntry {
    pub name: String,
    pub is_dir: bool,
}

/// The directory that the candidates of a path come from.
#[derive(Debug)]
pub enum Place {
    /// Below the home directory.
    Home(String),
    /// The directory as it was typed.
    Absolute,
    /// The working directory of the shell.
    Working,
    /// Below the working directory of the shell, as it was typed.
    Relative,
}

/// Where the candidates for a word come from.
#[derive(Debug)]
pub enum Source {
    /// The programs on the search path.
    Programs,
    /// The home directory is the only candidate.
    Home,
    /// Entries of a directory: `text` is what was typed of it, `needle` what was typed behind it.
    Directory { text: String, needle: String, place: Place, directory_only: bool },
}

/// How to complete a line: the word from `start` to `cursor`, both counted in characters.
#[derive(Debug)]
pub struct Plan {
    pub start: usize,
    pub cursor: usize,
    pub source: Source,
}

/// The number of characters up to the last slash, the slash counted.
pub open spec fn directory_len(s: Seq<char>) -> nat
    decreases s.len(),
{
    if s.len() == 0 || s.last() == '/' {
        s.len()
    } else {
        directory_len(s.drop_last())
    }
}

/// The place that the typed part of a directory stands for.
pub open spec fn is_place(place: Place, typed: Seq<char>) -> bool {
    match place {
        Place::Home(relative) => text::strip_prefix(typed, "~/"@) == Some(relative@),
        Place::Absolute => !text::starts_with(typed, "~/"@) && typed.len() > 0 && typed[0] == '/',
        Place::Working => typed.len() == 0,
        Place::Relative => !text::starts_with(typed, "~/"@) && typed.len() > 0 && typed[0] != '/',
    }
}

/// Where the candidates for the word from `start` to `cursor` come from.
pub open spec fn is_source(source: Source, line: Seq<char>, start: nat, cursor: nat) -> bool {
    let typed = line.subrange(start as int, cursor as int);
    let (first, command) = context(line, start);
    if first && !typed.contains('/') {
        source is Programs
    } else if typed == "~"@ {
        source is Home
    } else {
        &&& source matches Source::Directory { text: directory, needle, place, directory_only }
        &&& directory@ == typed.take(directory_len(typed) as int)
        &&& needle@ == typed.skip(directory_len(typed) as int)
        &&& is_place(place, directory@)
        &&& directory_only == (command == Some("cd"@))
    }
}

fn find_place(typed: &[char]) -> (r: Place)
    ensures
        is_place(r, typed@),
{
    match text::after_prefix(typed, "~/") {
        Some(relative) => Place::Home(text::string_of(relative.as_slice())),
        None => {
            if typed.len() == 0 {
                Place::Working
            } else if typed[0] == '/' {
                Place::Absolute
            } else {
                Place::Relative
            }
        },
    }
}

fn typed_directory_len(s: &[char]) -> (r: usize)
    ensures
        r == directory_len(s@),
        r <= s@.len(),
{
    let mut n: usize = s.len();
    assert(s@.take(n as int) =~= s@);
    while n > 0 && s[n - 1] != '/'
        invariant
            n <= s@.len(),
            directory_len(s@) == directory_len(s@.take(n as int)),
        decreases n,
    {
        assert(s@.take(n as int).drop_last() =~= s@.take(n - 1));
        n -= 1;
    }
    n
}

/// How to complete a line at a cursor, which is a byte position; one inside a character or
/// behind the line counts as the nearest before it.
pub fn completion_plan(line: &str, cursor: u32) -> (r: Plan)
    ensures
        r.cursor == text::chars_within(line@, cursor as nat),
        r.start == token_start(line@.take(r.cursor as int)),
        r.start <= r.cursor <= line@.len(),
        is_source(r.source, line@, r.start as nat, r.cursor as nat),
{
    let chars = text::chars_of(line);
    let k: usize = text::count_within(chars.as_slice(), cursor as usize);
    let start: usize = token_start_in(chars.as_slice(), k);
    let typed = text::copy_range(chars.as_slice(), start, k);
    let slash: usize = text::find(typed.as_slice(), '/');
    proof {
        lemma_position(typed@, '/');
    }
    let command = command_bounds(chars.as_slice(), start);
    if command.is_none() && slash == typed.len() {
        return Plan { start, cursor: k, source: Source::Programs };
    }
    if text::same(typed.as_slice(), text::chars_of("~").as_slice()) {
        return Plan { start, cursor: k, source: Source::Home };
    }
    let n: usize = typed_directory_len(typed.as_slice());
    let directory = text::copy_range(typed.as_slice(), 0, n);
    let needle = text::copy_range(typed.as_slice(), n, typed.len());
    assert(directory@ =~= typed@.take(n as int));
    assert(needle@ =~= typed@.skip(n as int));
    let directory_only = match command {
        None => false,
        Some((from, to)) => text::same(
            text::copy_range(chars.as_slice(), from, to).as_slice(),
            text::chars_of("cd").as_slice(),
        ),
    };
    let place = find_place(directory.as_slice());
    Plan {
        start,
        cursor: k,
        source: Source::Directory {
            text: text::string_of(directory.as_slice()),
            needle: text::string_of(needle.as_slice()),
            place,
            directory_only,
        },
    }
}

proof fn lemma_position(s: Seq<char>, c: char)
    ensures
        s.contains(c) <==> text::position(s, c) < s.len(),
        text::position(s, c) <= s.len(),
    decreases s.len(),
{
    if s.len() > 0 {
        let rest = s.drop_first();
        lemma_position(rest, c);
        if s[0] == c {
            assert(s.contains(c));
        } else {
            if s.contains(c) {
                let k = choose|k: int| 0 <= k < s.len() && s[k] == c;
                assert(rest[k - 1] == c);
            }
            if rest.contains(c) {
                let k = choose|k: int| 0 <= k < rest.len() && rest[k] == c;
                assert(s[k + 1] == c);
            }
        }
    }
}

/// A program among the directories of the search path that what was typed can become.
pub open spec fn is_program(listings: Seq<Vec<DirEntry>>, typed: Seq<char>, x: Seq<char>) -> bool {
    text::starts_with(x, typed) && exists|i: int, j: int|
        0 <= i < listings.len() && 0 <= j < listings[i]@.len() && !(#[trigger] listings[i]@[j]).is_dir
            && listings[i]@[j].name@ == x
}

/// The candidates are exactly those texts, each once and in order.
pub open spec fn candidates_are(sorted: Seq<Seq<char>>, is: spec_fn(Seq<char>) -> bool) -> bool {
    &&& ascending(sorted)
    &&& forall|x: Seq<char>| #[trigger] sorted.contains(x) <==> is(x)
}

/// Completes a word by the programs of the search path. A program that is found twice counts
/// once.
pub fn complete_programs(line: &str, plan: &Plan, listings: &[Vec<DirEntry>]) -> (r:
    PtyCompleteResult)
    requires
        plan.start <= plan.cursor <= line@.len(),
    ensures
        exists|sorted: Seq<Seq<char>>|
            #![trigger answers(r, line@, plan.start as nat, plan.cursor as nat, sorted)]
            candidates_are(
                sorted,
                |x: Seq<char>|
                    is_program(
                        listings@,
                        line@.subrange(plan.start as int, plan.cursor as int),
                        x,
                    ),
            ) && answers(r, line@, plan.start as nat, plan.cursor as nat, sorted),
{
    let chars = text::chars_of(line);
    let typed = text::copy_range(chars.as_slice(), plan.start, plan.cursor);
    let mut given: Vec<Vec<char>> = Vec::new();
    let mut i: usize = 0;
    assert(text::contents(given@) =~= Seq::<Seq<char>>::empty());
    while i < listings.len()
        invariant
            i <= listings@.len(),
            typed@ == line@.subrange(plan.start as int, plan.cursor as int),
            forall|x: Seq<char>| #[trigger]
                text::contents(given@).contains(x) <==> is_program(
                    listings@.take(i as int),
                    typed@,
                    x,
                ),
        decreases listings@.len() - i,
    {
        let ghost before = text::contents(given@);
        add_programs(&mut given, listings[i].as_slice(), typed.as_slice());
        proof {
            let head = listings@.take(i as int);
            let more = listings@.take(i + 1);
            assert forall|x: Seq<char>| #[trigger]
                text::contents(given@).contains(x) <==> is_program(more, typed@, x) by {
                assert(before.contains(x) <==> is_program(head, typed@, x));
                if is_program(head, typed@, x) {
                    let (a, b) = choose|a: int, b: int|
                        0 <= a < head.len() && 0 <= b < head[a]@.len() && !(
                        #[trigger] head[a]@[b]).is_dir && head[a]@[b].name@ == x;
                    assert(!more[a]@[b].is_dir && more[a]@[b].name@ == x);
                }
                if is_listed(listings@[i as int]@, typed@, x) {
                    let b = choose|b: int|
                        0 <= b < listings@[i as int]@.len() && !(
                        #[trigger] listings@[i as int]@[b]).is_dir && listings@[i as int]@[b].name@
                            == x;
                    assert(!more[i as int]@[b].is_dir && more[i as int]@[b].name@ == x);
                }
                if is_program(more, typed@, x) {
                    let (a, b) = choose|a: int, b: int|
                        0 <= a < more.len() && 0 <= b < more[a]@.len() && !(
                        #[trigger] more[a]@[b]).is_dir && more[a]@[b].name@ == x;
                    if a < i {
                        assert(!head[a]@[b].is_dir && head[a]@[b].name@ == x);
                    } else {
                        assert(!listings@[i as int]@[b].is_dir && listings@[i as int]@[b].name@
                            == x);
                    }
                }
            }
        }
        i += 1;
    }
    assert(listings@.take(i as int) =~= listings@);
    let r = finish_completion(chars.as_slice(), plan.start, plan.cursor, given.as_slice());
    proof {
        let sorted = choose|sorted: Seq<Seq<char>>|
            sorted_set(sorted, text::contents(given@)) && #[trigger] answers(
                r,
                chars@,
                plan.start as nat,
                plan.cursor as nat,
                sorted,
            );
        let is = |x: Seq<char>|
            is_program(listings@, line@.subrange(plan.start as int, plan.cursor as int), x);
        assert forall|x: Seq<char>| #[trigger] sorted.contains(x) <==> is(x) by {
            assert(text::contents(given@).contains(x) <==> is_program(listings@, typed@, x));
        }
        assert(candidates_are(sorted, is));
    }
    r
}

spec fn is_listed(entries: Seq<DirEntry>, typed: Seq<char>, x: Seq<char>) -> bool {
    text::starts_with(x, typed) && exists|j: int|
        0 <= j < entries.len() && !(#[trigger] entries[j]).is_dir && entries[j].name@ == x
}

fn add_programs(given: &mut Vec<Vec<char>>, entries: &[DirEntry], typed: &[char])
    ensures
        forall|x: Seq<char>| #[trigger]
            text::contents(final(given)@).contains(x) <==> text::contents(old(given)@).contains(x)
                || is_listed(entries@, typed@, x),
{
    let ghost start = text::contents(given@);
    let mut j: usize = 0;
    while j < entries.len()
        invariant
            j <= entries@.len(),
            start == text::contents(old(given)@),
            forall|x: Seq<char>| #[trigger]
                text::contents(given@).contains(x) <==> start.contains(x) || is_listed(
                    entries@.take(j as int),
                    typed@,
                    x,
                ),
        decreases entries@.len() - j,
    {
        let ghost before = text::contents(given@);
        let name = text::chars_of(entries[j].name.as_str());
        let ghost added = name@;
        let take = !entries[j].is_dir && text::begins_with(name.as_slice(), typed);
        if take {
            given.push(name);
            assert(text::contents(given@) =~= before.push(added));
        }
        proof {
            let head = entries@.take(j as int);
            let more = entries@.take(j + 1);
            assert forall|x: Seq<char>| #[trigger]
                text::contents(given@).contains(x) <==> start.contains(x) || is_listed(
                    more,
                    typed@,
                    x,
                ) by {
                assert(before.contains(x) <==> start.contains(x) || is_listed(head, typed@, x));
                lemma_push_contains(before, added, x);
                if is_listed(head, typed@, x) {
                    let k = choose|k: int|
                        0 <= k < head.len() && !(#[trigger] head[k]).is_dir && head[k].name@ == x;
                    assert(!more[k].is_dir && more[k].name@ == x);
                }
                if take && x == added {
                    assert(!more[j as int].is_dir && more[j as int].name@ == x);
                }
                if is_listed(more, typed@, x) {
                    let k = choose|k: int|
                        0 <= k < more.len() && !(#[trigger] more[k]).is_dir && more[k].name@ == x;
                    if k < j {
                        assert(!head[k].is_dir && head[k].name@ == x);
                    }
                }
            }
        }
        j += 1;
    }
    assert(entries@.take(j as int) =~= entries@);
}

proof fn lemma_push_contains(s: Seq<Seq<char>>, added: Seq<char>, x: Seq<char>)
    ensures
        s.push(added).contains(x) <==> s.contains(x) || x == added,
{
    if s.contains(x) {
        let k = choose|k: int| 0 <= k < s.len() && s[k] == x;
        assert(s.push(added)[k] == x);
    }
    if x == added {
        assert(s.push(added)[s.len() as int] == x);
    }
    if s.push(added).contains(x) {
        let k = choose|k: int| 0 <= k < s.push(added).len() && s.push(added)[k] == x;
        if k < s.len() {
            assert(s[k] == x);
        }
    }
}

/// What an entry adds to what was typed of its directory: directories end with a slash.
pub open spec fn entry_path(directory: Seq<char>, entry: DirEntry) -> Seq<char> {
    if entry.is_dir {
        directory + entry.name@ + "/"@
    } else {
        directory + entry.name@
    }
}

/// Whether an entry is a candidate.
pub open spec fn entry_fits(entry: DirEntry, needle: Seq<char>, directory_only: bool) -> bool {
    text::starts_with(entry.name@, needle) && (directory_only ==> entry.is_dir)
}

/// A path that what was typed can become.
pub open spec fn is_path(
    entries: Seq<DirEntry>,
    directory: Seq<char>,
    needle: Seq<char>,
    directory_only: bool,
    x: Seq<char>,
) -> bool {
    exists|j: int|
        0 <= j < entries.len() && entry_fits(#[trigger] entries[j], needle, directory_only) && x
            == entry_path(directory, entries[j])
}

/// Completes a word by the entries of a directory.
pub fn complete_path(
    line: &str,
    start: usize,
    cursor: usize,
    directory: &str,
    needle: &str,
    directory_only: bool,
    entries: &[DirEntry],
) -> (r: PtyCompleteResult)
    requires
        start <= cursor <= line@.len(),
    ensures
        exists|sorted: Seq<Seq<char>>|
            #![trigger answers(r, line@, start as nat, cursor as nat, sorted)]
            candidates_are(
                sorted,
                |x: Seq<char>| is_path(entries@, directory@, needle@, directory_only, x),
            ) && answers(r, line@, start as nat, cursor as nat, sorted),
{
    let chars = text::chars_of(line);
    let wanted = text::chars_of(needle);
    let mut given: Vec<Vec<char>> = Vec::new();
    let mut j: usize = 0;
    assert(text::contents(given@) =~= Seq::<Seq<char>>::empty());
    while j < entries.len()
        invariant
            j <= entries@.len(),
            wanted@ == needle@,
            forall|x: Seq<char>| #[trigger]
                text::contents(given@).contains(x) <==> is_path(
                    entries@.take(j as int),
                    directory@,
                    needle@,
                    directory_only,
                    x,
                ),
        decreases entries@.len() - j,
    {
        let ghost before = text::contents(given@);
        let name = text::chars_of(entries[j].name.as_str());
        let fits = text::begins_with(name.as_slice(), wanted.as_slice()) && (!directory_only
            || entries[j].is_dir);
        let ghost added = entry_path(directory@, entries@[j as int]);
        if fits {
            let mut path = text::cat2(directory, entries[j].name.as_str());
            if entries[j].is_dir {
                path.append("/");
            }
            assert(path@ == added);
            given.push(text::chars_of(path.as_str()));
            assert(text::contents(given@) =~= before.push(added));
        }
        proof {
            let head = entries@.take(j as int);
            let more = entries@.take(j + 1);
            assert forall|x: Seq<char>| #[trigger]
                text::contents(given@).contains(x) <==> is_path(
                    more,
                    directory@,
                    needle@,
                    directory_only,
                    x,
                ) by {
                assert(before.contains(x) <==> is_path(head, directory@, needle@, directory_only, x));
                lemma_push_contains(before, added, x);
                if is_path(head, directory@, needle@, directory_only, x) {
                    let k = choose|k: int|
                        0 <= k < head.len() && entry_fits(
                            #[trigger] head[k],
                            needle@,
                            directory_only,
                        ) && x == entry_path(directory@, head[k]);
                    assert(more[k] == head[k]);
                }
                if fits && x == added {
                    assert(more[j as int] == entries@[j as int]);
                }
                if is_path(more, directory@, needle@, directory_only, x) {
                    let k = choose|k: int|
                        0 <= k < more.len() && entry_fits(
                            #[trigger] more[k],
                            needle@,
                            directory_only,
                        ) && x == entry_path(directory@, more[k]);
                    if k < j {
                        assert(more[k] == head[k]);
                    }
                }
            }
        }
        j += 1;
    }
    assert(entries@.take(j as int) =~= entries@);
    let r = finish_completion(chars.as_slice(), start, cursor, given.as_slice());
    proof {
        let sorted = choose|sorted: Seq<Seq<char>>|
            sorted_set(sorted, text::contents(given@)) && #[trigger] answers(
                r,
                chars@,
                start as nat,
                cursor as nat,
                sorted,
            );
        let is = |x: Seq<char>| is_path(entries@, directory@, needle@, directory_only, x);
        assert(candidates_are(sorted, is));
    }
    r
}

/// What the sign for the home directory can become.
pub open spec fn home_candidates() -> Seq<Seq<char>> {
    seq!["~/"@]
}

/// Completes the sign for the home directory.
pub fn complete_home(line: &str, start: usize, cursor: usize) -> (r: PtyCompleteResult)
    requires
        start <= cursor <= line@.len(),
    ensures
        answers(r, line@, start as nat, cursor as nat, home_candidates()),
{
    let chars = text::chars_of(line);
    let mut given: Vec<Vec<char>> = Vec::new();
    assert(text::contents(given@) =~= Seq::<Seq<char>>::empty());
    given.push(text::chars_of("~/"));
    assert(text::contents(given@) =~= seq!["~/"@]);
    let r = finish_completion(chars.as_slice(), start, cursor, given.as_slice());
    proof {
        let only = seq!["~/"@];
        let sorted = choose|sorted: Seq<Seq<char>>|
            sorted_set(sorted, text::contents(given@)) && #[trigger] answers(
                r,
                chars@,
                start as nat,
                cursor as nat,
                sorted,
            );
        lemma_sorted_set_unique(sorted, only, only, 0);
    }
    r
}

/// The search path of a shell that has none of its own.
pub const DEFAULT_PATH: &'static str =
    "/product/bin:/apex/com.android.runtime/bin:/system_ext/bin:/system/bin:/system/xbin:/vendor/bin";

/// The directories of a search path.
pub open spec fn directories_of(path: Seq<char>) -> Seq<Seq<char>> {
    text::nonempty(text::split(path, ':'))
}

/// The directories of a search path, in order.
pub fn search_path(path: &str) -> (r: Vec<String>)
    ensures
        crate::shell::views(r@) == directories_of(path@),
{
    text::pieces(path, ':')
}

/// The entries of a process's environment, which ends each with a zero.
pub open spec fn split_zero(b: Seq<u8>) -> Seq<Seq<u8>>
    decreases b.len(),
{
    if b.len() == 0 {
        seq![Seq::empty()]
    } else {
        let before = split_zero(b.drop_last());
        if b.last() == 0 {
            before.push(Seq::empty())
        } else {
            before.drop_last().push(before.last().push(b.last()))
        }
    }
}

/// The value that one entry gives to a variable.
pub open spec fn entry_value(entry: Seq<u8>, key: Seq<char>) -> Option<Seq<char>> {
    if vstd::utf8::valid_utf8(entry) {
        text::strip_prefix(vstd::utf8::decode_utf8(entry), key + "="@)
    } else {
        None
    }
}

/// The first value that some entries give to a variable.
pub open spec fn first_value(entries: Seq<Seq<u8>>, key: Seq<char>) -> Option<Seq<char>>
    decreases entries.len(),
{
    if entries.len() == 0 {
        None
    } else if entry_value(entries[0], key) is Some {
        entry_value(entries[0], key)
    } else {
        first_value(entries.drop_first(), key)
    }
}

pub open spec fn byte_contents(parts: Seq<Vec<u8>>) -> Seq<Seq<u8>> {
    parts.map_values(|part: Vec<u8>| part@)
}

fn split_at_zeros(b: &[u8]) -> (r: Vec<Vec<u8>>)
    ensures
        byte_contents(r@) == split_zero(b@),
{
    let mut parts: Vec<Vec<u8>> = Vec::new();
    let mut current: Vec<u8> = Vec::new();
    let mut i: usize = 0;
    assert(b@.take(0) =~= Seq::<u8>::empty());
    assert(byte_contents(parts@).push(current@) =~= split_zero(b@.take(0)));
    while i < b.len()
        invariant
            i <= b@.len(),
            byte_contents(parts@).push(current@) == split_zero(b@.take(i as int)),
        decreases b@.len() - i,
    {
        let ghost before = byte_contents(parts@).push(current@);
        proof {
            assert(b@.take(i + 1).drop_last() =~= b@.take(i as int));
        }
        if b[i] == 0 {
            parts.push(current);
            current = Vec::new();
            assert(byte_contents(parts@) =~= before);
            assert(byte_contents(parts@).push(current@) =~= before.push(Seq::empty()));
        } else {
            current.push(b[i]);
            assert(before.drop_last() =~= byte_contents(parts@));
        }
        i += 1;
    }
    assert(b@.take(i as int) =~= b@);
    let ghost before = byte_contents(parts@).push(current@);
    parts.push(current);
    assert(byte_contents(parts@) =~= before);
    parts
}

/// The value of a variable in a process's environment.
pub fn environ_value(data: &[u8], key: &str) -> (r: Option<String>)
    ensures
        match r {
            Some(value) => first_value(split_zero(data@), key@) == Some(value@),
            None => first_value(split_zero(data@), key@) is None,
        },
{
    let parts = split_at_zeros(data);
    let ghost all = byte_contents(parts@);
    let prefix = text::cat2(key, "=");
    let mut i: usize = 0;
    assert(all.skip(0) =~= all);
    while i < parts.len()
        invariant
            i <= parts@.len(),
            all == byte_contents(parts@),
            all == split_zero(data@),
            prefix@ == key@ + "="@,
            first_value(all, key@) == first_value(all.skip(i as int), key@),
        decreases parts@.len() - i,
    {
        proof {
            assert(all.skip(i as int)[0] == parts@[i as int]@);
            assert(all.skip(i as int).drop_first() =~= all.skip(i + 1));
        }
        match text::utf8_text(crate::bytes::copy(parts[i].as_slice())) {
            Some(entry) => {
                let chars = text::chars_of(entry.as_str());
                match text::after_prefix(chars.as_slice(), prefix.as_str()) {
                    Some(value) => {
                        return Some(text::string_of(value.as_slice()));
                    },
                    None => {},
                }
            },
            None => {},
        }
        i += 1;
    }
    None
}

/// How long a directory listing is good for, in nanoseconds.
pub const DIRECTORY_CACHE_TTL_NANOS: u64 = 750_000_000;

pub const DIRECTORY_CACHE_LIMIT: usize = 64;

/// A directory listing that was read a while ago.
pub struct CachedDirectory {
    pub path: String,
    pub loaded_at: u64,
    pub entries: Vec<DirEntry>,
}

/// The directory listings that were read lately, one for each path.
pub struct DirectoryCache {
    pub listings: Vec<CachedDirectory>,
}

/// Whether a listing that was read at one time is still good at another.
pub open spec fn fresh(loaded_at: u64, now: u64) -> bool {
    now - loaded_at <= DIRECTORY_CACHE_TTL_NANOS
}

/// Whether a cache with so many listings takes one more without being emptied.
pub open spec fn has_room(listings: nat) -> bool {
    listings < DIRECTORY_CACHE_LIMIT
}

impl DirectoryCache {
    /// No path has two listings, and there are never too many.
    pub open spec fn wf(&self) -> bool {
        &&& self.listings@.len() <= DIRECTORY_CACHE_LIMIT
        &&& forall|i: int, j: int|
            0 <= i < j < self.listings@.len() ==> (#[trigger] self.listings@[i]).path@ != (
            #[trigger] self.listings@[j]).path@
    }

    pub fn new() -> (r: DirectoryCache)
        ensures
            r.wf(),
            r.listings@.len() == 0,
    {
        DirectoryCache { listings: Vec::new() }
    }

    fn index_of(&self, path: &str) -> (r: Option<usize>)
        ensures
            match r {
                Some(i) => i < self.listings@.len() && self.listings@[i as int].path@ == path@,
                None => forall|i: int|
                    0 <= i < self.listings@.len() ==> (#[trigger] self.listings@[i]).path@ != path@,
            },
    {
        let mut i: usize = 0;
        while i < self.listings.len()
            invariant
                i <= self.listings@.len(),
                forall|k: int| 0 <= k < i ==> (#[trigger] self.listings@[k]).path@ != path@,
            decreases self.listings@.len() - i,
        {
            if text::equal(self.listings[i].path.as_str(), path) {
                return Some(i);
            }
            i += 1;
        }
        None
    }

    /// The listing of a path, unless it is too old. Times are nanoseconds of a clock that never
    /// goes back.
    pub fn lookup(&self, path: &str, now: u64) -> (r: Option<&Vec<DirEntry>>)
        requires
            self.wf(),
        ensures
            match r {
                Some(entries) => exists|i: int|
                    0 <= i < self.listings@.len() && (#[trigger] self.listings@[i]).path@ == path@
                        && fresh(self.listings@[i].loaded_at, now) && entries
                        == self.listings@[i].entries,
                None => forall|i: int|
                    0 <= i < self.listings@.len() && (#[trigger] self.listings@[i]).path@ == path@
                        ==> !fresh(self.listings@[i].loaded_at, now),
            },
    {
        match self.index_of(path) {
            None => None,
            Some(i) => {
                let loaded: u64 = self.listings[i].loaded_at;
                if now < loaded || now - loaded <= DIRECTORY_CACHE_TTL_NANOS {
                    Some(&self.listings[i].entries)
                } else {
                    None
                }
            },
        }
    }

    /// Keeps a listing. A full cache is emptied first.
    pub fn store(&mut self, path: String, now: u64, entries: Vec<DirEntry>)
        requires
            old(self).wf(),
        ensures
            final(self).wf(),
            exists|i: int|
                0 <= i < final(self).listings@.len() && (#[trigger] final(self).listings@[i]).path@
                    == path@ && final(self).listings@[i].loaded_at == now && final(
                    self).listings@[i].entries == entries,
            !has_room(old(self).listings@.len()) ==> final(self).listings@.len() == 1,
            has_room(old(self).listings@.len()) ==> forall|i: int|
                0 <= i < old(self).listings@.len() && (#[trigger] old(self).listings@[i]).path@
                    != path@ ==> final(self).listings@[i] == old(self).listings@[i],
            forall|i: int|
                0 <= i < final(self).listings@.len() ==> (#[trigger] final(self).listings@[i]).path@
                    == path@ || (has_room(old(self).listings@.len()) && old(
                    self).listings@.contains(final(self).listings@[i])),
    {
        if self.listings.len() >= DIRECTORY_CACHE_LIMIT {
            self.listings.clear();
        }
        let found = self.index_of(path.as_str());
        let listing = CachedDirectory { path, loaded_at: now, entries };
        match found {
            Some(i) => {
                let ghost before = self.listings@;
                self.listings.set(i, listing);
                assert(self.listings@[i as int] == listing);
                assert forall|k: int| 0 <= k < self.listings@.len() && k != i implies before.contains(
                    #[trigger] self.listings@[k],
                ) by {
                    assert(before[k] == self.listings@[k]);
                }
            },
            None => {
                let ghost before = self.listings@;
                self.listings.push(listing);
                assert forall|k: int| 0 <= k < before.len() implies before.contains(
                    #[trigger] self.listings@[k],
                ) by {
                    assert(before[k] == self.listings@[k]);
                }
                assert(self.listings@[self.listings@.len() - 1] == listing);
            },
        }
    }
}

/// Whether a character means nothing to a shell but itself, and can stand in a word.
pub open spec fn is_ordinary(c: char) -> bool {
    !text::is_space(c) && c != '\'' && c != '"' && c != '|' && c != ';' && c != '&' && c != '('
        && c != ')' && c != '<' && c != '>'
}

pub open spec fn all_ordinary(s: Seq<char>) -> bool {
    forall|i: int| 0 <= i < s.len() ==> is_ordinary(#[trigger] s[i])
}

proof fn lemma_ordinary_goes_on(s: Seq<char>, word: Seq<char>)
    requires
        open_quote(s) is None,
        all_ordinary(word),
    ensures
        open_quote(s + word) is None,
        token_start(s + word) == token_start(s),
        segment_start(s + word) == segment_start(s),
    decreases word.len(),
{
    if word.len() == 0 {
        assert(s + word =~= s);
    } else {
        assert(is_ordinary(word[word.len() - 1]));
        lemma_ordinary_goes_on(s, word.drop_last());
        assert((s + word).drop_last() =~= s + word.drop_last());
    }
}

proof fn lemma_quoted_goes_on(s: Seq<char>, q: char, word: Seq<char>)
    requires
        open_quote(s) == Some(q),
        !word.contains(q),
    ensures
        open_quote(s + word) == Some(q),
        token_start(s + word) == token_start(s),
        segment_start(s + word) == segment_start(s),
    decreases word.len(),
{
    if word.len() == 0 {
        assert(s + word =~= s);
    } else {
        assert(word[word.len() - 1] == word.last());
        assert forall|c: char| word.drop_last().contains(c) implies word.contains(c) by {
            let i = choose|i: int| 0 <= i < word.len() - 1 && word.drop_last()[i] == c;
            assert(word[i] == c);
        }
        lemma_quoted_goes_on(s, q, word.drop_last());
        assert((s + word).drop_last() =~= s + word.drop_last());
    }
}

/// A word begins behind white space or behind any of the signs that part commands and
/// redirections. A quote at the beginning of a word is not part of it, and until it is closed
/// anything may stand in the word.
pub proof fn lemma_word_begins_behind_its_gap(before: Seq<char>, gap: char, word: Seq<char>, q: char)
    requires
        open_quote(before) is None,
    ensures
        (text::is_space(gap) || gap == '|' || gap == ';' || gap == '&' || gap == '(' || gap == ')'
            || gap == '<' || gap == '>') && !is_quote(gap) && all_ordinary(word) ==> token_start(
            before.push(gap) + word,
        ) == before.len() + 1,
        (q == '\'' || q == '"') && !word.contains(q) && token_start(before) == before.len()
            ==> token_start(before.push(q) + word) == before.len() + 1,
        all_ordinary(word) ==> token_start(before + word) == token_start(before),
        token_start(Seq::empty()) == 0,
{
    assert(before.push(gap).drop_last() =~= before);
    assert(before.push(q).drop_last() =~= before);
    if all_ordinary(word) {
        lemma_ordinary_goes_on(before, word);
        if ends_word(gap) && !is_quote(gap) {
            lemma_ordinary_goes_on(before.push(gap), word);
        }
    }
    if is_quote(q) && !word.contains(q) {
        lemma_quoted_goes_on(before.push(q), q, word);
    }
}

proof fn lemma_word_then_gap(word: Seq<char>, rest: Seq<char>)
    requires
        all_ordinary(word),
        rest.len() > 0,
        text::is_space(rest[0]),
    ensures
        word_len(word + rest) == word.len(),
    decreases word.len(),
{
    if word.len() == 0 {
        assert(word + rest =~= rest);
    } else {
        assert(is_ordinary(word[0]));
        assert forall|i: int| 0 <= i < word.len() - 1 implies is_ordinary(
            #[trigger] word.drop_first()[i],
        ) by {
            assert(is_ordinary(word[i + 1]));
        }
        lemma_word_then_gap(word.drop_first(), rest);
        assert((word + rest).drop_first() =~= word.drop_first() + rest);
    }
}

/// The first word of a line, and the first word behind any sign that parts commands, is a
/// command; every word behind it belongs to that command, whatever else was typed between them.
pub proof fn lemma_words_belong_to_their_command(
    head: Seq<char>,
    command: Seq<char>,
    between: Seq<char>,
    rest: Seq<char>,
)
    requires
        head.len() == 0 || (open_quote(head.drop_last()) is None && (head.last() == '|'
            || head.last() == ';' || head.last() == '&' || head.last() == '(' || head.last()
            == ')')),
        command.len() > 0,
        all_ordinary(command),
        all_ordinary(between),
    ensures
        context(head + rest, head.len()) == (true, None::<Seq<char>>),
        context(
            head + command.push(' ') + between + rest,
            (head.len() + command.len() + 1 + between.len()) as nat,
        ) == (false, Some(command)),
{
    assert((head + rest).take(head.len() as int) =~= head);
    assert(segment_start(head) == head.len());
    assert(open_quote(head) is None);
    assert(head.skip(head.len() as int) =~= Seq::<char>::empty());
    let line = head + command.push(' ') + between + rest;
    let typed = head + command + seq![' '] + between;
    assert(line.take((head.len() + command.len() + 1 + between.len()) as int) =~= typed);
    lemma_ordinary_goes_on(head, command);
    let gap = head + command + seq![' '];
    assert(gap.drop_last() =~= head + command);
    assert(text::is_space(' '));
    lemma_ordinary_goes_on(gap, between);
    let inside = command + (seq![' '] + between);
    assert(typed.skip(head.len() as int) =~= inside);
    assert(is_ordinary(command[0]));
    assert(inside[0] == command[0]);
    assert(text::trim_start(inside) == inside);
    lemma_word_then_gap(command, seq![' '] + between);
    assert(inside.take(command.len() as int) =~= command);
}

proof fn lemma_directory_len(s: Seq<char>)
    ensures
        directory_len(s) <= s.len(),
        forall|i: int| directory_len(s) <= i < s.len() ==> #[trigger] s[i] != '/',
        directory_len(s) > 0 ==> s[directory_len(s) - 1] == '/',
    decreases s.len(),
{
    if s.len() > 0 && s.last() != '/' {
        lemma_directory_len(s.drop_last());
        assert forall|i: int| directory_len(s) <= i < s.len() implies #[trigger] s[i] != '/' by {
            if i < s.len() - 1 {
                assert(s.drop_last()[i] == s[i]);
            }
        }
    }
}

/// A path is parted at its last slash, and nothing of it is lost. What follows `cd` is completed
/// by directories only, what follows any other command by files as well; a command without a
/// slash is completed by programs, and one with a slash by paths.
pub proof fn lemma_source_fits_the_word(source: Source, line: Seq<char>, start: nat, cursor: nat)
    requires
        start <= cursor <= line.len(),
        is_source(source, line, start, cursor),
    ensures
        ({
            let typed = line.subrange(start as int, cursor as int);
            let (first, command) = context(line, start);
            &&& first && !typed.contains('/') ==> source is Programs
            &&& !first || typed.contains('/') ==> !(source is Programs)
            &&& source is Home ==> typed == "~"@
            &&& source matches Source::Directory { text: directory, needle, place, directory_only }
                ==> {
                &&& directory@ + needle@ == typed
                &&& !needle@.contains('/')
                &&& directory@.len() > 0 ==> directory@.last() == '/'
                &&& command == Some("cd"@) ==> directory_only
                &&& command != Some("cd"@) ==> !directory_only
                &&& place is Working <==> directory@.len() == 0
                &&& place is Absolute <==> text::starts_with(directory@, "/"@)
                &&& place matches Place::Home(relative) ==> "~/"@ + relative@ == directory@
                &&& text::starts_with(directory@, "~/"@) ==> place is Home
            }
        }),
{
    reveal_strlit("~");
    reveal_strlit("~/");
    reveal_strlit("/");
    let typed = line.subrange(start as int, cursor as int);
    lemma_directory_len(typed);
    if let Source::Directory { text: directory, needle, place, directory_only } = source {
        assert(directory@ + needle@ =~= typed);
        assert forall|i: int| 0 <= i < needle@.len() implies #[trigger] needle@[i] != '/' by {
            assert(needle@[i] == typed[directory_len(typed) + i]);
        }
        let d = directory@;
        assert(text::starts_with(d, "/"@) <==> d.len() > 0 && d[0] == '/') by {
            if d.len() > 0 {
                assert("/"@ =~= seq!['/']);
                assert(d.take(1)[0] == d[0]);
                assert(d[0] == '/' ==> d.take(1) =~= seq!['/']);
            }
        }
        if text::starts_with(d, "~/"@) {
            assert(d.take(2)[0] == '~');
            assert(d[0] == '~');
            assert("~/"@ + d.skip(2) =~= d);
        }
    }
}

/// Every entry that goes on from what was typed is offered, a directory with a slash behind it;
/// nothing else is. Where only directories are asked for, files are left out and nothing more.
pub proof fn lemma_entries_are_offered(
    entries: Seq<DirEntry>,
    directory: Seq<char>,
    needle: Seq<char>,
    directory_only: bool,
    x: Seq<char>,
    j: int,
    rest: Seq<char>,
)
    requires
        0 <= j < entries.len(),
    ensures
        entries[j].name@ == needle + rest && entries[j].is_dir ==> is_path(
            entries,
            directory,
            needle,
            directory_only,
            directory + needle + rest + seq!['/'],
        ),
        entries[j].name@ == needle + rest && !entries[j].is_dir ==> is_path(
            entries,
            directory,
            needle,
            false,
            directory + needle + rest,
        ),
        is_path(entries, directory, needle, directory_only, x) ==> text::starts_with(
            x,
            directory + needle,
        ),
        is_path(entries, directory, needle, true, x) ==> x.len() > 0 && x.last() == '/',
        is_path(entries, directory, needle, directory_only, x) ==> exists|k: int|
            0 <= k < entries.len() && (x == directory + (#[trigger] entries[k]).name@ || x
                == directory + entries[k].name@ + seq!['/']),
{
    reveal_strlit("/");
    assert("/"@ =~= seq!['/']);
    let e = entries[j];
    if e.name@ == needle + rest {
        assert(e.name@.take(needle.len() as int) =~= needle);
        assert(entry_fits(e, needle, e.is_dir));
        assert(entry_fits(e, needle, false));
        let path = entry_path(directory, e);
        if e.is_dir {
            assert(path =~= directory + needle + rest + seq!['/']);
            assert(entry_fits(e, needle, directory_only));
        } else {
            assert(path =~= directory + needle + rest);
        }
    }
    if is_path(entries, directory, needle, directory_only, x) {
        let k = choose|k: int|
            0 <= k < entries.len() && entry_fits(#[trigger] entries[k], needle, directory_only) && x
                == entry_path(directory, entries[k]);
        let name = entries[k].name@;
        assert(name.take(needle.len() as int) == needle);
        assert(x.take((directory + needle).len() as int) =~= directory + needle) by {
            assert forall|i: int| 0 <= i < needle.len() implies x[directory.len() + i] == needle[i] by {
                assert(name.take(needle.len() as int)[i] == name[i]);
            }
        }
        assert(x == directory + name || x == directory + name + seq!['/']);
    }
}

/// An environment in the form of a process: each entry ended by a zero.
pub open spec fn environment(entries: Seq<Seq<u8>>) -> Seq<u8>
    decreases entries.len(),
{
    if entries.len() == 0 {
        Seq::empty()
    } else {
        environment(entries.drop_last()) + entries.last().push(0u8)
    }
}

proof fn lemma_split_nonzero(b: Seq<u8>, more: Seq<u8>)
    requires
        !more.contains(0u8),
    ensures
        split_zero(b).len() > 0,
        split_zero(b + more) == split_zero(b).drop_last().push(split_zero(b).last() + more),
    decreases b.len() + more.len(),
{
    if more.len() > 0 {
        assert(more[more.len() - 1] == more.last());
        assert forall|c: u8| more.drop_last().contains(c) implies more.contains(c) by {
            let i = choose|i: int| 0 <= i < more.len() - 1 && more.drop_last()[i] == c;
            assert(more[i] == c);
        }
        lemma_split_nonzero(b, more.drop_last());
        assert((b + more).drop_last() =~= b + more.drop_last());
        let parts = split_zero(b);
        let before = split_zero(b + more.drop_last());
        assert(before.drop_last() =~= parts.drop_last());
        assert(before.last() == parts.last() + more.drop_last());
        assert(before.last().push(more.last()) =~= parts.last() + more);
    } else {
        if b.len() > 0 {
            lemma_split_nonzero(b.drop_last(), more);
        }
        assert(b + more =~= b);
        let parts = split_zero(b);
        assert(parts.last() + more =~= parts.last());
        assert(parts.drop_last().push(parts.last()) =~= parts);
    }
}

proof fn lemma_environment_splits(entries: Seq<Seq<u8>>)
    requires
        forall|i: int| 0 <= i < entries.len() ==> !(#[trigger] entries[i]).contains(0u8),
    ensures
        split_zero(environment(entries)) == entries.push(Seq::empty()),
    decreases entries.len(),
{
    if entries.len() == 0 {
        assert(split_zero(environment(entries)) =~= entries.push(Seq::empty()));
    } else {
        let init = entries.drop_last();
        assert forall|i: int| 0 <= i < init.len() implies !(#[trigger] init[i]).contains(0u8) by {
            assert(!entries[i].contains(0u8));
        }
        assert(!entries[entries.len() - 1].contains(0u8));
        lemma_environment_splits(init);
        let before = environment(init);
        lemma_split_nonzero(before, entries.last());
        let all = environment(entries);
        assert(all.drop_last() =~= before + entries.last());
        assert(split_zero(before).drop_last() =~= init);
        assert(Seq::<u8>::empty() + entries.last() =~= entries.last());
        assert(split_zero(before + entries.last()) =~= entries);
    }
}

proof fn lemma_first_value(entries: Seq<Seq<u8>>, key: Seq<char>, k: int)
    requires
        0 <= k < entries.len(),
        entry_value(entries[k], key) is Some,
        forall|i: int| 0 <= i < k ==> entry_value(#[trigger] entries[i], key) is None,
    ensures
        first_value(entries, key) == entry_value(entries[k], key),
    decreases k,
{
    if k > 0 {
        assert(entry_value(entries[0], key) is None);
        assert forall|i: int| 0 <= i < k - 1 implies entry_value(
            #[trigger] entries.drop_first()[i],
            key,
        ) is None by {
            assert(entry_value(entries[i + 1], key) is None);
        }
        lemma_first_value(entries.drop_first(), key, k - 1);
    }
}

/// The value of a variable is what stands behind its name and an equals sign in the first entry
/// that has them, whole and unchanged.
pub proof fn lemma_variable_is_found(
    entries: Seq<Seq<u8>>,
    k: int,
    key: Seq<char>,
    value: Seq<char>,
)
    requires
        0 <= k < entries.len(),
        forall|i: int| 0 <= i < entries.len() ==> !(#[trigger] entries[i]).contains(0u8),
        entries[k] == vstd::utf8::encode_utf8(key + seq!['='] + value),
        forall|i: int, v: Seq<char>|
            0 <= i < k ==> #[trigger] entries[i] != #[trigger] vstd::utf8::encode_utf8(
                key + seq!['='] + v,
            ),
    ensures
        first_value(split_zero(environment(entries)), key) == Some(value),
{
    reveal_strlit("=");
    assert("="@ =~= seq!['=']);
    let start = key + seq!['='];
    let whole = start + value;
    vstd::utf8::encode_utf8_valid_utf8(whole);
    vstd::utf8::encode_utf8_decode_utf8(whole);
    assert(whole.take(start.len() as int) =~= start);
    assert(whole.skip(start.len() as int) =~= value);
    lemma_environment_splits(entries);
    let all = entries.push(Seq::empty());
    assert forall|i: int| 0 <= i < k implies entry_value(#[trigger] all[i], key) is None by {
        let e = entries[i];
        if entry_value(e, key) is Some {
            let s = vstd::utf8::decode_utf8(e);
            vstd::utf8::decode_utf8_encode_utf8(e);
            let v = s.skip(start.len() as int);
            assert(s =~= start + v);
            assert(entries[i] == vstd::utf8::encode_utf8(key + seq!['='] + v));
        }
    }
    lemma_first_value(all, key, k);
}

/// A listing is good for three quarters of a second, and not longer.
pub proof fn lemma_listing_is_good_for_a_while(loaded_at: u64, age: u64)
    requires
        loaded_at + age <= u64::MAX,
    ensures
        fresh(loaded_at, (loaded_at + age) as u64) <==> age <= 750 * 1_000_000,
{
}

/// A program is offered if it goes on from what was typed and is a file of some directory that is
/// searched; a directory is none.
pub proof fn lemma_programs_are_offered(
    listings: Seq<Vec<DirEntry>>,
    i: int,
    j: int,
    typed: Seq<char>,
    rest: Seq<char>,
    x: Seq<char>,
)
    requires
        0 <= i < listings.len(),
        0 <= j < listings[i]@.len(),
    ensures
        listings[i]@[j].name@ == typed + rest && !listings[i]@[j].is_dir ==> is_program(
            listings,
            typed,
            typed + rest,
        ),
        is_program(listings, typed, x) ==> text::starts_with(x, typed),
        (forall|k: int, l: int|
            0 <= k < listings.len() && 0 <= l < listings[k]@.len() ==> (
            #[trigger] listings[k]@[l]).is_dir || listings[k]@[l].name@ != x) ==> !is_program(
            listings,
            typed,
            x,
        ),
{
    assert((typed + rest).take(typed.len() as int) =~= typed);
}

/// The sign for the home directory, completed, stands for that directory.
pub proof fn lemma_home_leads_home(relative: String)
    requires
        relative@.len() == 0,
    ensures
        is_place(Place::Home(relative), replacement("~"@, home_candidates())),
{
    reveal_strlit("~");
    reveal_strlit("~/");
    let only = home_candidates();
    let new = replacement("~"@, only);
    assert(common_all(only) == only[0]);
    assert(new.take(2) =~= "~/"@);
    assert(new.skip(2) =~= relative@);
}

/// A directory that is put behind a search path is searched last, behind all that were there.
pub proof fn lemma_search_path_grows(path: Seq<char>, directory: Seq<char>)
    requires
        directory.len() > 0,
        !directory.contains(':'),
    ensures
        directories_of(path + seq![':'] + directory) == directories_of(path).push(directory),
        directories_of(directory) == seq![directory],
        directories_of(Seq::empty()).len() == 0,
{
    crate::transfer::lemma_split_push(path, ':', directory);
    assert(path + seq![':'] + directory =~= path.push(':') + directory);
    let parts = text::split(path, ':').push(directory);
    assert(parts.drop_last() =~= text::split(path, ':'));
    crate::transfer::lemma_single_split(directory, ':');
    let one = seq![directory];
    assert(one.drop_last() =~= Seq::<Seq<char>>::empty());
    assert(text::nonempty(one.drop_last()) =~= Seq::<Seq<char>>::empty());
    assert(text::nonempty(one) =~= one);
    let none = seq![Seq::<char>::empty()];
    assert(none.drop_last() =~= Seq::<Seq<char>>::empty());
    assert(text::split(Seq::empty(), ':') =~= none);
}

/// Sixty-four listings can be kept at a time, and none is given up before.
pub proof fn lemma_cache_keeps_many(listings: nat)
    ensures
        has_room(listings) <==> listings + 1 <= 64,
{
}

} // verus!
