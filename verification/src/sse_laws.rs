//! What is written as an event is read back as that event.

use vstd::prelude::*;
use crate::sse::{
    classify, data_lines, framed, line_len, next_event, nothing, parse, step, EventView, Line,
    Parsed, PendingView, Stepped,
};
use crate::text::{
    decimal, digits_of, is_digit, is_space, lemma_decimal_round_trip, lemma_digits_of,
    lemma_position, lemma_position_is, position, trim_start, trimmed,
};

verus! {

/// Whether `s` holds no `c`.
pub open spec fn free_of(s: Seq<char>, c: char) -> bool {
    forall|i: int| 0 <= i < s.len() ==> s[i] != c
}

/// The first `c` of `a + b` is the first `c` of `a`, or, where `a` holds none, the first
/// `c` of `b`.
pub proof fn lemma_position_concat(a: Seq<char>, b: Seq<char>, c: char)
    ensures
        position(a + b, c) == if position(a, c) < a.len() {
            position(a, c)
        } else {
            a.len() + position(b, c)
        },
{
    lemma_position(a, c);
    lemma_position(b, c);
    let s = a + b;
    let k = if position(a, c) < a.len() {
        position(a, c)
    } else {
        a.len() + position(b, c)
    };
    assert forall|i: int| 0 <= i < k implies s[i] != c by {
        if i < a.len() {
            assert(s[i] == a[i]);
        } else {
            assert(s[i] == b[i - a.len()]);
        }
    }
    if k < s.len() {
        if position(a, c) < a.len() {
            assert(s[k] == a[k]);
        } else {
            assert(s[k] == b[k - a.len()]);
        }
    }
    lemma_position_is(s, c, k);
}

/// A text that holds no `c` has its first `c` at its end.
pub proof fn lemma_position_free(s: Seq<char>, c: char)
    requires
        free_of(s, c),
    ensures
        position(s, c) == s.len(),
{
    lemma_position_is(s, c, s.len() as int);
}

/// White space in front of a text does not change what is left when it is trimmed.
pub proof fn lemma_trimmed_after_space(w: char, s: Seq<char>)
    requires
        is_space(w),
    ensures
        trimmed(seq![w] + s) == trimmed(s),
{
    assert((seq![w] + s).skip(1) =~= s);
}

/// White space behind a text does not change what is left when it is trimmed.
pub proof fn lemma_trimmed_before_space(s: Seq<char>, w: char)
    requires
        is_space(w),
    ensures
        trimmed(s + seq![w]) == trimmed(s),
    decreases s.len(),
{
    let t = s + seq![w];
    if s.len() == 0 {
        assert(t.skip(1) =~= Seq::<char>::empty());
        assert(trim_start(t) == trim_start(t.skip(1)));
    } else if is_space(s[0]) {
        assert(t.skip(1) =~= s.skip(1) + seq![w]);
        lemma_trimmed_before_space(s.skip(1), w);
    } else {
        assert(t.drop_last() =~= s);
    }
}

/// A text that neither begins nor ends with white space is left as it is when trimmed.
pub proof fn lemma_trimmed_tight(s: Seq<char>)
    requires
        s.len() > 0,
        !is_space(s[0]),
        !is_space(s.last()),
    ensures
        trimmed(s) == s,
{
}

/// The digits of a number hold nothing but digits: no line feed, no colon, no white
/// space.
pub proof fn lemma_decimal_is_plain(x: i64)
    ensures
        decimal(x as int).len() > 0,
        free_of(decimal(x as int), '\n'),
        free_of(decimal(x as int), ':'),
        trimmed(decimal(x as int)) == decimal(x as int),
{
    let d = decimal(x as int);
    let n = if x < 0 {
        (-(x as int)) as nat
    } else {
        x as nat
    };
    lemma_digits_of(n);
    let digits = digits_of(n);
    assert forall|i: int| 0 <= i < d.len() implies is_digit(#[trigger] d[i]) || d[i] == '-' by {
        if x < 0 {
            if i > 0 {
                assert(d[i] == digits[i - 1]);
            }
        }
    }
    assert(is_digit(d.last())) by {
        if x < 0 {
            assert(d.last() == digits.last());
        }
    }
    assert forall|i: int| 0 <= i < d.len() implies d[i] != '\n' && d[i] != ':' by {
        assert(is_digit(d[i]) || d[i] == '-');
    }
    lemma_trimmed_tight(d);
}

/// Putting in the field name behind every line feed goes piece by piece.
pub proof fn lemma_data_lines_concat(a: Seq<char>, b: Seq<char>)
    ensures
        data_lines(a + b) == data_lines(a) + data_lines(b),
    decreases b.len(),
{
    if b.len() == 0 {
        assert(a + b =~= a);
        assert(data_lines(a) + data_lines(b) =~= data_lines(a));
    } else {
        let front = b.drop_last();
        assert((a + b).drop_last() =~= a + front);
        assert((a + b).last() == b.last());
        lemma_data_lines_concat(a, front);
        if b.last() == '\n' {
            assert(data_lines(a + b) =~= data_lines(a) + (data_lines(front) + "\ndata: "@));
        } else {
            assert(data_lines(a + b) =~= data_lines(a) + data_lines(front).push(b.last()));
        }
    }
}

/// A text of one line is its own data line.
pub proof fn lemma_data_lines_plain(s: Seq<char>)
    requires
        free_of(s, '\n'),
    ensures
        data_lines(s) == s,
    decreases s.len(),
{
    if s.len() > 0 {
        lemma_data_lines_plain(s.drop_last());
        assert(s.drop_last().push(s.last()) =~= s);
    }
}

/// The lines of `s`, each without the white space around it, with one space between each
/// two.
pub open spec fn unfolded(s: Seq<char>) -> Seq<char>
    decreases s.len(),
{
    let n = position(s, '\n');
    if 0 <= n < s.len() {
        trimmed(s.take(n)) + seq![' '] + unfolded(s.skip(n + 1))
    } else {
        trimmed(s)
    }
}

/// The data of the event `pending` once the lines of `t` have been read into it.
pub open spec fn gathered(pending: PendingView, t: Seq<char>) -> Seq<char> {
    if pending.has_data {
        pending.data + seq![' '] + unfolded(t)
    } else {
        unfolded(t)
    }
}

/// One data line with the value `value`.
pub open spec fn data_line(value: Seq<char>) -> Seq<char> {
    seq!['d', 'a', 't', 'a', ':', ' '] + value + seq!['\n']
}

/// A data line in front of more input is read as one piece of data: its value without
/// the white space around it.
pub proof fn lemma_data_line_is_read(value: Seq<char>, tail: Seq<char>, pending: PendingView)
    requires
        free_of(value, '\n'),
    ensures
        parse(data_line(value) + tail, pending) == parse(
            tail,
            PendingView {
                data: if pending.has_data {
                    pending.data + seq![' '] + trimmed(value)
                } else {
                    trimmed(value)
                },
                has_data: true,
                ..pending
            },
        ),
{
    let name = seq!['d', 'a', 't', 'a', ':', ' '];
    let line = data_line(value);
    let input = line + tail;
    assert(free_of(name + value, '\n')) by {
        assert forall|i: int| 0 <= i < (name + value).len() implies (name + value)[i] != '\n' by {
            if i >= 6 {
                assert((name + value)[i] == value[i - 6]);
            }
        }
    }
    lemma_position_free(name + value, '\n');
    lemma_position_concat(name + value, seq!['\n'], '\n');
    assert(position(seq!['\n'], '\n') == 0);
    assert(position(line, '\n') == line.len() - 1);
    lemma_position_concat(line, tail, '\n');
    assert(line_len(input) == line.len());
    assert(input.take(line.len() as int) =~= line);
    assert(input.skip(line.len() as int) =~= tail);
    // the line says: data
    assert(line != seq!['\n']) by {
        assert(seq!['\n'].len() == 1);
    }
    lemma_position_is(line, ':', 4);
    assert(line.take(4) =~= seq!['d', 'a', 't', 'a']);
    assert(line.take(4) != seq!['i', 'd']) by {
        assert(seq!['i', 'd'].len() == 2);
    }
    assert(line.skip(5) =~= seq![' '] + (value + seq!['\n']));
    lemma_trimmed_after_space(' ', value + seq!['\n']);
    lemma_trimmed_before_space(value, '\n');
    assert(classify(line) == Line::Data(trimmed(value)));
}

/// The blank line ends the event and the input.
pub proof fn lemma_blank_line_ends(pending: PendingView)
    ensures
        parse(seq!['\n'], pending) == (Parsed::Event {
            event: EventView { data: pending.data, event: None, id: pending.id },
            rest: Seq::empty(),
        }),
{
    let input = seq!['\n'];
    assert(position(input, '\n') == 0);
    assert(input.take(1) =~= input);
    assert(input.skip(1) =~= Seq::<char>::empty());
}

/// The data lines that `frame` writes for `t`, with the blank line behind them, are read
/// as the lines of `t`, and end the event.
pub proof fn lemma_data_is_read_back(t: Seq<char>, pending: PendingView)
    ensures
        parse(
            seq!['d', 'a', 't', 'a', ':', ' '] + data_lines(t) + seq!['\n', '\n'],
            pending,
        ) == (Parsed::Event {
            event: EventView { data: gathered(pending, t), event: None, id: pending.id },
            rest: Seq::empty(),
        }),
    decreases t.len(),
{
    reveal_strlit("\ndata: ");
    let name = seq!['d', 'a', 't', 'a', ':', ' '];
    let input = name + data_lines(t) + seq!['\n', '\n'];
    lemma_position(t, '\n');
    let n = position(t, '\n');
    let first = t.take(n);
    let more = PendingView {
        data: if pending.has_data {
            pending.data + seq![' '] + trimmed(first)
        } else {
            trimmed(first)
        },
        has_data: true,
        ..pending
    };
    if n < t.len() {
        let rest = t.skip(n + 1);
        assert(t =~= first + seq!['\n'] + rest);
        lemma_data_lines_concat(first + seq!['\n'], rest);
        lemma_data_lines_concat(first, seq!['\n']);
        lemma_data_lines_plain(first);
        assert(data_lines(seq!['\n']) =~= "\ndata: "@) by {
            reveal_with_fuel(data_lines, 2);
            assert(seq!['\n'].drop_last() =~= Seq::<char>::empty());
        }
        let tail = name + data_lines(rest) + seq!['\n', '\n'];
        assert("\ndata: "@ =~= seq!['\n'] + name);
        assert(input =~= data_line(first) + tail);
        lemma_data_line_is_read(first, tail, pending);
        lemma_data_is_read_back(rest, more);
        assert(gathered(more, rest) =~= gathered(pending, t));
    } else {
        assert(first =~= t);
        lemma_data_lines_plain(t);
        assert(input =~= data_line(t) + seq!['\n']);
        lemma_data_line_is_read(t, seq!['\n'], pending);
        lemma_blank_line_ends(more);
    }
}

/// What `frame` writes is read back as one event and nothing more: the event has the id
/// that was written, and for its data the lines of the trimmed data that was written,
/// each trimmed, with one space between each two.
pub proof fn lemma_frame_is_read_back(id: i64, data: Seq<char>)
    ensures
        next_event(framed(id as int, data)) == (Parsed::Event {
            event: EventView { data: unfolded(trimmed(data)), event: None, id: Some(id) },
            rest: Seq::empty(),
        }),
{
    reveal_strlit("id: ");
    reveal_strlit("\ndata: ");
    reveal_strlit("\n\n");
    let d = decimal(id as int);
    let t = trimmed(data);
    let name = seq!['i', 'd', ':', ' '];
    let line = name + d + seq!['\n'];
    let tail = seq!['d', 'a', 't', 'a', ':', ' '] + data_lines(t) + seq!['\n', '\n'];
    let input = framed(id as int, data);
    assert("id: "@ =~= name);
    assert("\ndata: "@ =~= seq!['\n'] + seq!['d', 'a', 't', 'a', ':', ' ']);
    assert("\n\n"@ =~= seq!['\n', '\n']);
    assert(input =~= line + tail);
    lemma_decimal_is_plain(id);
    lemma_decimal_round_trip(id);
    // where the line ends
    assert(free_of(name + d, '\n')) by {
        assert forall|i: int| 0 <= i < (name + d).len() implies (name + d)[i] != '\n' by {
            if i >= 4 {
                assert((name + d)[i] == d[i - 4]);
            }
        }
    }
    lemma_position_free(name + d, '\n');
    lemma_position_concat(name + d, seq!['\n'], '\n');
    assert(position(seq!['\n'], '\n') == 0);
    lemma_position_concat(line, tail, '\n');
    assert(line_len(input) == line.len());
    assert(input.take(line.len() as int) =~= line);
    assert(input.skip(line.len() as int) =~= tail);
    // what the line says
    assert(line != seq!['\n']) by {
        assert(seq!['\n'].len() == 1);
    }
    lemma_position_is(line, ':', 2);
    assert(line.take(2) =~= seq!['i', 'd']);
    assert(line.skip(3) =~= seq![' '] + (d + seq!['\n']));
    lemma_trimmed_after_space(' ', d + seq!['\n']);
    lemma_trimmed_before_space(d, '\n');
    assert(classify(line) == Line::Id(id));
    let pending = PendingView { id: Some(id), ..nothing() };
    assert(step(nothing(), line) == Stepped::More(pending));
    lemma_data_is_read_back(t, pending);
}

} // verus!
