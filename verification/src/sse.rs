//! Server-sent events: reading events from a stream of text, line by line.
//!
//! An event is a run of lines that a blank line ends. A line is a field name, a colon and
//! a value: `id` sets the id of the event, each `data` line adds one piece of its data,
//! and a line that starts with the colon is a comment.

use vstd::prelude::*;
use vstd::string::StringExecFns;
use crate::item::text;
use crate::text::{
    chars_of, decimal, find, lemma_position, parse_i64, parsed_i64, position, push_decimal,
    trim_bounds, trimmed,
};

verus! {

/// One event of the stream.
#[derive(Debug, PartialEq)]
pub struct Event {
    /// The data lines of the event, joined by single spaces.
    pub data: String,
    /// The name of the event; the reader sets none.
    pub event: Option<String>,
    /// The id that the stream gave the event.
    pub id: Option<i64>,
}

/// The mathematical value of an [`Event`].
pub struct EventView {
    pub data: Seq<char>,
    pub event: Option<Seq<char>>,
    pub id: Option<i64>,
}

impl View for Event {
    type V = EventView;

    open spec fn view(&self) -> EventView {
        EventView { data: self.data@, event: text(self.event), id: self.id }
    }
}

/// Why a line of the stream cannot be read.
#[derive(Clone, Copy, Debug, PartialEq, Eq, Structural)]
pub enum SseError {
    /// The line is neither blank nor does it hold a colon.
    MissingColon,
    /// The value of an `id` line writes no integer.
    BadId,
    /// The field is none of those the reader knows.
    UnknownField,
}

/// What one line of the stream says.
pub enum Line {
    /// The blank line that ends an event.
    End,
    /// A comment.
    Comment,
    /// The id of the event.
    Id(i64),
    /// One piece of the data of the event.
    Data(Seq<char>),
    /// Nothing that can be read.
    Bad(SseError),
}

/// What `line` says. The line is taken with the line feed that ends it; the value of a
/// field is what follows the first colon, without the white space around it.
pub open spec fn classify(line: Seq<char>) -> Line {
    let colon = position(line, ':');
    if line == seq!['\n'] {
        Line::End
    } else if colon == line.len() {
        Line::Bad(SseError::MissingColon)
    } else if colon == 0 {
        Line::Comment
    } else {
        let name = line.take(colon);
        let value = trimmed(line.skip(colon + 1));
        if name == seq!['i', 'd'] {
            match parsed_i64(value) {
                Some(id) => Line::Id(id),
                None => Line::Bad(SseError::BadId),
            }
        } else if name == seq!['d', 'a', 't', 'a'] {
            Line::Data(value)
        } else {
            Line::Bad(SseError::UnknownField)
        }
    }
}

/// The length of the first line of `input`, its line feed included; the last line of a
/// stream may lack one.
pub open spec fn line_len(input: Seq<char>) -> int {
    let feed = position(input, '\n');
    if feed < input.len() {
        feed + 1
    } else {
        feed
    }
}

/// What a reader has gathered of the event it is in the middle of.
pub struct Pending {
    data: String,
    has_data: bool,
    id: Option<i64>,
}

/// The mathematical value of a [`Pending`].
pub struct PendingView {
    /// The data pieces read so far, with one space between each two.
    pub data: Seq<char>,
    /// Whether a data line has been read.
    pub has_data: bool,
    /// The id that the last `id` line gave.
    pub id: Option<i64>,
}

impl View for Pending {
    type V = PendingView;

    closed spec fn view(&self) -> PendingView {
        PendingView { data: self.data@, has_data: self.has_data, id: self.id }
    }
}

/// Nothing gathered: where every event begins.
pub open spec fn nothing() -> PendingView {
    PendingView { data: Seq::empty(), has_data: false, id: None }
}

/// What one line makes of an event in the middle of which it is read.
pub enum Stepped {
    /// The event goes on.
    More(PendingView),
    /// The line ended the event.
    Event(EventView),
    /// The line cannot be read.
    Failed(SseError),
}

/// Takes `line` into the event `pending`. An `id` line replaces the id; a data line adds
/// its piece, behind a space where it is not the first; the blank line hands out the
/// event.
pub open spec fn step(pending: PendingView, line: Seq<char>) -> Stepped {
    match classify(line) {
        Line::End => Stepped::Event(EventView { data: pending.data, event: None, id: pending.id }),
        Line::Comment => Stepped::More(pending),
        Line::Id(id) => Stepped::More(PendingView { id: Some(id), ..pending }),
        Line::Data(piece) => Stepped::More(
            PendingView {
                data: if pending.has_data {
                    pending.data + seq![' '] + piece
                } else {
                    piece
                },
                has_data: true,
                ..pending
            },
        ),
        Line::Bad(error) => Stepped::Failed(error),
    }
}

/// How an attempt to read one event ends.
pub enum Parsed {
    /// A blank line ended the event; `rest` is what follows that line.
    Event { event: EventView, rest: Seq<char> },
    /// The stream ended before a blank line did: there is no event, and nothing is left.
    Interrupted,
    /// A line cannot be read; `rest` is what follows that line.
    Failed { error: SseError, rest: Seq<char> },
}

/// Reads `input` line by line into the event `pending`, up to the blank line that ends
/// it.
pub open spec fn parse(input: Seq<char>, pending: PendingView) -> Parsed
    decreases input.len(),
{
    if input.len() == 0 {
        Parsed::Interrupted
    } else {
        proof {
            lemma_position(input, '\n');
        }
        let n = line_len(input);
        let rest = input.skip(n);
        match step(pending, input.take(n)) {
            Stepped::More(more) => parse(rest, more),
            Stepped::Event(event) => Parsed::Event { event, rest },
            Stepped::Failed(error) => Parsed::Failed { error, rest },
        }
    }
}

/// What reading the next event of `input` comes to.
pub open spec fn next_event(input: Seq<char>) -> Parsed {
    parse(input, nothing())
}

/// A stream of text and the place up to which it has been read.
pub struct SseReader {
    chars: Vec<char>,
    pos: usize,
}

impl View for SseReader {
    type V = Seq<char>;

    /// What is left to read.
    closed spec fn view(&self) -> Seq<char> {
        self.chars@.skip(self.pos as int)
    }
}

/// What a line says, with the place of its data in the stream.
enum Kind {
    End,
    Comment,
    Id(i64),
    Data(usize, usize),
    Bad(SseError),
}

/// What the line of `v` from `from` up to `to` says.
fn classify_at(v: &Vec<char>, from: usize, to: usize) -> (kind: Kind)
    requires
        from < to <= v.len(),
    ensures
        match classify(v@.subrange(from as int, to as int)) {
            Line::End => kind is End,
            Line::Comment => kind is Comment,
            Line::Id(id) => kind matches Kind::Id(x) && x == id,
            Line::Data(piece) => kind matches Kind::Data(a, b) && from <= a <= b <= to
                && v@.subrange(a as int, b as int) == piece,
            Line::Bad(error) => kind matches Kind::Bad(e) && e == error,
        },
{
    let ghost line = v@.subrange(from as int, to as int);
    assert(line[0] == v@[from as int]);
    if to - from == 1 && v[from] == '\n' {
        assert(line =~= seq!['\n']);
        return Kind::End;
    }
    assert(line != seq!['\n']) by {
        if line == seq!['\n'] {
            assert(line.len() == 1);
            assert(seq!['\n'][0] == '\n');
        }
    }
    let colon = find(v, from, to, ':');
    if colon == to {
        return Kind::Bad(SseError::MissingColon);
    }
    if colon == from {
        return Kind::Comment;
    }
    let ghost name = line.take(colon - from);
    assert(name =~= v@.subrange(from as int, colon as int));
    assert(line.skip(colon - from + 1) =~= v@.subrange(colon + 1, to as int));
    let (a, b) = trim_bounds(v, colon + 1, to);
    if colon - from == 2 && v[from] == 'i' && v[from + 1] == 'd' {
        assert(name =~= seq!['i', 'd']);
        return match parse_i64(v, a, b) {
            Some(id) => Kind::Id(id),
            None => Kind::Bad(SseError::BadId),
        };
    }
    assert(name != seq!['i', 'd']) by {
        if name == seq!['i', 'd'] {
            assert(name.len() == 2);
            assert(name[0] == 'i' && name[1] == 'd');
        }
    }
    if colon - from == 4 && v[from] == 'd' && v[from + 1] == 'a' && v[from + 2] == 't' && v[from
        + 3] == 'a' {
        assert(name =~= seq!['d', 'a', 't', 'a']);
        return Kind::Data(a, b);
    }
    assert(name != seq!['d', 'a', 't', 'a']) by {
        if name == seq!['d', 'a', 't', 'a'] {
            assert(name.len() == 4);
            assert(name[0] == 'd' && name[1] == 'a' && name[2] == 't' && name[3] == 'a');
        }
    }
    Kind::Bad(SseError::UnknownField)
}

impl SseReader {
    #[verifier::type_invariant]
    spec fn in_range(&self) -> bool {
        self.pos <= self.chars.len()
    }

    /// A reader at the start of `text`.
    pub fn new(text: &str) -> (reader: SseReader)
        ensures
            reader@ == text@,
    {
        let chars = chars_of(text);
        assert(chars@.skip(0) =~= chars@);
        SseReader { chars, pos: 0 }
    }

    /// Whether everything has been read.
    pub fn is_empty(&self) -> (empty: bool)
        ensures
            empty == (self@.len() == 0),
    {
        proof {
            use_type_invariant(self);
        }
        self.pos == self.chars.len()
    }
}

impl Pending {
    #[verifier::type_invariant]
    spec fn data_is_read(&self) -> bool {
        !self.has_data ==> self.data@.len() == 0
    }

    /// Nothing gathered: where every event begins.
    pub fn new() -> (pending: Pending)
        ensures
            pending@ == nothing(),
    {
        Pending { data: String::new(), has_data: false, id: None }
    }

    /// Takes the line of `v` from `from` up to `to` into the event.
    fn push_range(&mut self, v: &Vec<char>, from: usize, to: usize) -> (r: Result<
        Option<Event>,
        SseError,
    >)
        requires
            from <= to <= v.len(),
        ensures
            match step(old(self)@, v@.subrange(from as int, to as int)) {
                Stepped::More(more) => r matches Ok(None) && final(self)@ == more,
                Stepped::Event(event) => r matches Ok(Some(e)) && e@ == event && final(self)@
                    == nothing(),
                Stepped::Failed(error) => r matches Err(e) && e == error && final(self)@ == old(
                    self,
                )@,
            },
    {
        proof {
            use_type_invariant(&*self);
        }
        if from == to {
            assert(v@.subrange(from as int, to as int) =~= Seq::<char>::empty());
            assert(v@.subrange(from as int, to as int) != seq!['\n']) by {
                assert(seq!['\n'].len() == 1);
            }
            return Err(SseError::MissingColon);
        }
        match classify_at(v, from, to) {
            Kind::End => {
                let mut data = String::new();
                std::mem::swap(&mut self.data, &mut data);
                let id = self.id;
                self.has_data = false;
                self.id = None;
                Ok(Some(Event { data, event: None, id }))
            },
            Kind::Comment => Ok(None),
            Kind::Id(value) => {
                self.id = Some(value);
                Ok(None)
            },
            Kind::Data(a, b) => {
                // The data is taken out while it grows, and put back once it is complete.
                let mut data = String::new();
                std::mem::swap(&mut self.data, &mut data);
                let ghost before = data@;
                if self.has_data {
                    data.push(' ');
                }
                let ghost head = data@;
                let mut i: usize = a;
                while i < b
                    invariant
                        a <= i <= b <= v.len(),
                        data@ == head + v@.subrange(a as int, i as int),
                    decreases b - i,
                {
                    data.push(v[i]);
                    assert(v@.subrange(a as int, i + 1) =~= v@.subrange(a as int, i as int).push(
                        v@[i as int],
                    ));
                    i = i + 1;
                }
                proof {
                    let piece = v@.subrange(a as int, b as int);
                    if self.has_data {
                        assert(data@ =~= before + seq![' '] + piece);
                    } else {
                        assert(data@ =~= piece);
                    }
                }
                self.has_data = true;
                self.data = data;
                Ok(None)
            },
            Kind::Bad(error) => Err(error),
        }
    }

    /// Takes one line of the stream, with the line feed that ends it, into the event.
    /// `Ok(Some(..))` hands out the event that the line ended, and the next event begins
    /// with nothing; a line that cannot be read changes nothing.
    pub fn push_line(&mut self, line: &str) -> (r: Result<Option<Event>, SseError>)
        ensures
            match step(old(self)@, line@) {
                Stepped::More(more) => r matches Ok(None) && final(self)@ == more,
                Stepped::Event(event) => r matches Ok(Some(e)) && e@ == event && final(self)@
                    == nothing(),
                Stepped::Failed(error) => r matches Err(e) && e == error && final(self)@ == old(
                    self,
                )@,
            },
    {
        let v = chars_of(line);
        assert(v@.subrange(0, v@.len() as int) =~= v@);
        self.push_range(&v, 0, v.len())
    }
}

/// Reads the next event from `buf`, or finds the line that cannot be read. The reader
/// then stands behind the blank line that ended the event, behind the line that failed,
/// or at the end of a stream that broke off inside an event.
pub fn try_parse_sse(buf: &mut SseReader) -> (r: Result<Option<Event>, SseError>)
    ensures
        match next_event(old(buf)@) {
            Parsed::Event { event, rest } => r matches Ok(Some(e)) && e@ == event && final(buf)@
                == rest,
            Parsed::Interrupted => r matches Ok(None) && final(buf)@.len() == 0,
            Parsed::Failed { error, rest } => r matches Err(e) && e == error && final(buf)@ == rest,
        },
{
    proof {
        use_type_invariant(&*buf);
    }
    let len = buf.chars.len();
    let mut pos = buf.pos;
    let mut pending = Pending::new();
    let ghost all = buf.chars@;
    loop
        invariant
            pos <= len == all.len(),
            buf.chars@ == all,
            buf.pos <= len,
            next_event(old(buf)@) == parse(all.skip(pos as int), pending@),
        decreases len - pos,
    {
        let ghost input = all.skip(pos as int);
        if pos == len {
            buf.pos = len;
            return Ok(None);
        }
        assert(input =~= all.subrange(pos as int, len as int));
        let feed = find(&buf.chars, pos, len, '\n');
        let end = if feed < len {
            feed + 1
        } else {
            feed
        };
        proof {
            lemma_position(input, '\n');
            assert(input.take(end - pos) =~= all.subrange(pos as int, end as int));
            assert(input.skip(end - pos) =~= all.skip(end as int));
        }
        match pending.push_range(&buf.chars, pos, end) {
            Ok(Some(event)) => {
                buf.pos = end;
                return Ok(Some(event));
            },
            Ok(None) => {},
            Err(error) => {
                buf.pos = end;
                return Err(error);
            },
        }
        pos = end;
    }
}

/// `s` with the name of the data field put in behind every line feed, so that each
/// line of `s` becomes a data line of its own.
pub open spec fn data_lines(s: Seq<char>) -> Seq<char>
    decreases s.len(),
{
    if s.len() == 0 {
        Seq::empty()
    } else if s.last() == '\n' {
        data_lines(s.drop_last()) + "\ndata: "@
    } else {
        data_lines(s.drop_last()).push(s.last())
    }
}

/// The event that carries an item to a reader of the stream: a line with its id, its data
/// without the white space around it as one data line or more, and the blank line that
/// ends the event.
pub open spec fn framed(id: int, data: Seq<char>) -> Seq<char> {
    "id: "@ + decimal(id) + "\ndata: "@ + data_lines(trimmed(data)) + "\n\n"@
}

/// Writes the item `id` with the data `data` as one event of a stream.
pub fn frame(id: i64, data: &str) -> (s: String)
    ensures
        s@ == framed(id as int, data@),
{
    let v = chars_of(data);
    assert(v@.subrange(0, v@.len() as int) =~= v@);
    let (a, b) = trim_bounds(&v, 0, v.len());
    let ghost body = v@.subrange(a as int, b as int);
    let mut s = String::new();
    s.append("id: ");
    push_decimal(&mut s, id);
    s.append("\ndata: ");
    let ghost head = s@;
    assert(head =~= "id: "@ + decimal(id as int) + "\ndata: "@);
    let mut i: usize = a;
    assert(body.take(0) =~= Seq::<char>::empty());
    while i < b
        invariant
            a <= i <= b <= v.len(),
            body == v@.subrange(a as int, b as int),
            s@ == head + data_lines(body.take(i - a)),
        decreases b - i,
    {
        proof {
            assert(body.take(i - a + 1).drop_last() =~= body.take(i - a));
            assert(body.take(i - a + 1).last() == v@[i as int]);
        }
        let ghost so_far = data_lines(body.take(i - a));
        if v[i] == '\n' {
            s.append("\ndata: ");
            assert(head + so_far + "\ndata: "@ =~= head + (so_far + "\ndata: "@));
        } else {
            s.push(v[i]);
            assert((head + so_far).push(v@[i as int]) =~= head + so_far.push(v@[i as int]));
        }
        i = i + 1;
    }
    assert(body.take(b - a) =~= body);
    s.append("\n\n");
    s
}

/// Reads the next event from `buf`. The stream must hold no line that cannot be read
/// before its end or the end of the event. `None` says that the stream broke off before
/// a blank line ended the event.
pub fn parse_sse(buf: &mut SseReader) -> (r: Option<Event>)
    requires
        !(next_event(old(buf)@) is Failed),
    ensures
        match next_event(old(buf)@) {
            Parsed::Event { event, rest } => r matches Some(e) && e@ == event && final(buf)@ == rest,
            _ => r is None && final(buf)@.len() == 0,
        },
{
    match try_parse_sse(buf) {
        Ok(event) => event,
        Err(_) => None,
    }
}

} // verus!
