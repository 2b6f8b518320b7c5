//! Keys: the bytes that stand for them, read one by one, and the packets that
//! deliver them to the daemon.

use crate::text;
use crate::unicode;
use vstd::prelude::*;
use vstd::string::*;
use vstd::utf8::*;

verus! {

/// What the user asks for.
#[derive(Debug)]
pub enum Key {
    Up,
    Down,
    Jump,
    Quit,
    Close,
    Help,
    Versions,
    Search,
    Backspace,
    ClearSearch,
    CycleState,
    AllStates,
    Text(String),
    Other,
}

/// What a key means.
pub enum Meaning {
    Up,
    Down,
    Jump,
    Quit,
    Close,
    Help,
    Versions,
    Search,
    Backspace,
    ClearSearch,
    CycleState,
    AllStates,
    Text(Seq<char>),
    Other,
}

impl View for Key {
    type V = Meaning;

    open spec fn view(&self) -> Meaning {
        match self {
            Key::Up => Meaning::Up,
            Key::Down => Meaning::Down,
            Key::Jump => Meaning::Jump,
            Key::Quit => Meaning::Quit,
            Key::Close => Meaning::Close,
            Key::Help => Meaning::Help,
            Key::Versions => Meaning::Versions,
            Key::Search => Meaning::Search,
            Key::Backspace => Meaning::Backspace,
            Key::ClearSearch => Meaning::ClearSearch,
            Key::CycleState => Meaning::CycleState,
            Key::AllStates => Meaning::AllStates,
            Key::Text(s) => Meaning::Text(s@),
            Key::Other => Meaning::Other,
        }
    }
}

/// What the bytes read so far wait for.
pub enum Pending {
    /// The character of a text packet.
    Packet,
    /// What follows an escape.
    Escape,
    /// What follows an escape and this byte.
    Sequence(u8),
    /// The rest of a character of this many bytes in all, after these.
    Character(Vec<u8>, usize),
}

/// Where the reading of a key stands.
pub enum Decode {
    /// The key is complete.
    Done(Key),
    /// One more byte is needed. It is waited for shortly: the bytes of a key
    /// may come in one by one.
    More(Pending),
}

/// What the bytes read so far wait for.
pub enum Want {
    Packet,
    Escape,
    Sequence(u8),
    Character(Seq<u8>, int),
}

/// Where the reading of a key stands.
pub enum Read {
    Done(Meaning),
    More(Want),
}

impl View for Pending {
    type V = Want;

    open spec fn view(&self) -> Want {
        match self {
            Pending::Packet => Want::Packet,
            Pending::Escape => Want::Escape,
            Pending::Sequence(a) => Want::Sequence(*a),
            Pending::Character(b, n) => Want::Character(b@, *n as int),
        }
    }
}

impl View for Decode {
    type V = Read;

    open spec fn view(&self) -> Read {
        match self {
            Decode::Done(k) => Read::Done(k@),
            Decode::More(p) => Read::More(p@),
        }
    }
}

// ---------------------------------------------------------------------------
// The first byte

/// What the first byte of a key gives: none is the end of the input.
pub open spec fn key_begun(first: Option<u8>) -> Read {
    match first {
        None => Read::Done(Meaning::Quit),
        Some(b) => if b == 0x6a {
            Read::Done(Meaning::Down)  // j
        } else if b == 0x6b {
            Read::Done(Meaning::Up)  // k
        } else if b == 0x71 || b == 0x03 || b == 0x04 {
            Read::Done(Meaning::Quit)  // q, Ctrl-C, Ctrl-D
        } else if b == 0x51 {
            Read::Done(Meaning::Close)  // Q
        } else if b == 0x6c || b == 0x0d || b == 0x0a {
            Read::Done(Meaning::Jump)  // l, Enter
        } else if b == 0x3f {
            Read::Done(Meaning::Help)  // ?
        } else if b == 0x75 {
            Read::Done(Meaning::Versions)  // u
        } else if b == 0x2f {
            Read::Done(Meaning::Search)  // /
        } else if b == 0x66 {
            Read::Done(Meaning::CycleState)  // f
        } else if b == 0x0c {
            Read::Done(Meaning::AllStates)
        } else if b == 0x08 || b == 0x7f {
            Read::Done(Meaning::Backspace)
        } else if b == 0x15 {
            Read::Done(Meaning::ClearSearch)  // Ctrl-U
        } else if b == 0x00 {
            Read::More(Want::Packet)
        } else if b == 0x1b {
            Read::More(Want::Escape)
        } else {
            Read::Done(Meaning::Other)
        },
    }
}

/// What the first byte of a key gives. Text comes in packets behind a NUL, so
/// that letters with a meaning of their own can be typed into a search.
pub fn read_key(first: Option<u8>) -> (r: Decode)
    ensures
        r@ == key_begun(first),
{
    let b: u8 = match first {
        Some(b) => b,
        None => {
            return Decode::Done(Key::Quit);
        },
    };
    match b {
        0x6a => Decode::Done(Key::Down),
        0x6b => Decode::Done(Key::Up),
        0x71 | 0x03 | 0x04 => Decode::Done(Key::Quit),
        0x51 => Decode::Done(Key::Close),
        0x6c | 0x0d | 0x0a => Decode::Done(Key::Jump),
        0x3f => Decode::Done(Key::Help),
        0x75 => Decode::Done(Key::Versions),
        0x2f => Decode::Done(Key::Search),
        0x66 => Decode::Done(Key::CycleState),
        // clears the filter on behalf of tmux bindings and clicks
        0x0c => Decode::Done(Key::AllStates),
        0x08 | 0x7f => Decode::Done(Key::Backspace),
        0x15 => Decode::Done(Key::ClearSearch),
        0x00 => Decode::More(Pending::Packet),
        0x1b => Decode::More(Pending::Escape),
        _ => Decode::Done(Key::Other),
    }
}

/// How many bytes the character has that starts with this one, by the bits that
/// it starts with.
pub open spec fn char_width(b: u8) -> int {
    if b < 0x80 {
        1
    } else if 0xc0 <= b < 0xe0 {
        2
    } else if 0xe0 <= b < 0xf0 {
        3
    } else if 0xf0 <= b < 0xf8 {
        4
    } else {
        0
    }
}

/// The text that complete bytes stand for.
pub open spec fn text_typed(bytes: Seq<u8>) -> Meaning {
    if valid_utf8(bytes) {
        Meaning::Text(decode_utf8(bytes))
    } else {
        Meaning::Other
    }
}

/// What the first byte gives while a search takes the input: whatever can be
/// printed is text.
pub open spec fn search_key_begun(first: Option<u8>) -> Read {
    match first {
        None => Read::Done(Meaning::Quit),
        Some(b) => if b == 0x0d || b == 0x0a {
            Read::Done(Meaning::Jump)
        } else if b == 0x03 || b == 0x04 {
            Read::Done(Meaning::Quit)
        } else if b == 0x08 || b == 0x7f {
            Read::Done(Meaning::Backspace)
        } else if b == 0x15 {
            Read::Done(Meaning::ClearSearch)
        } else if b == 0x0e {
            Read::Done(Meaning::Down)  // Ctrl-N
        } else if b == 0x10 {
            Read::Done(Meaning::Up)  // Ctrl-P
        } else if b == 0x1b {
            Read::More(Want::Escape)
        } else if b < 0x20 || char_width(b) == 0 {
            Read::Done(Meaning::Other)
        } else if char_width(b) == 1 {
            Read::Done(text_typed(seq![b]))
        } else {
            Read::More(Want::Character(seq![b], char_width(b)))
        },
    }
}

fn typed(bytes: Vec<u8>) -> (r: Key)
    ensures
        r@ == text_typed(bytes@),
{
    match unicode::decoded(bytes) {
        Some(s) => Key::Text(s),
        None => Key::Other,
    }
}

/// What the first byte gives while a search takes the input.
pub fn read_search_key(first: Option<u8>) -> (r: Decode)
    ensures
        r@ == search_key_begun(first),
{
    let b: u8 = match first {
        Some(b) => b,
        None => {
            return Decode::Done(Key::Quit);
        },
    };
    match b {
        0x0d | 0x0a => Decode::Done(Key::Jump),
        0x03 | 0x04 => Decode::Done(Key::Quit),
        0x08 | 0x7f => Decode::Done(Key::Backspace),
        0x15 => Decode::Done(Key::ClearSearch),
        0x0e => Decode::Done(Key::Down),
        0x10 => Decode::Done(Key::Up),
        0x1b => Decode::More(Pending::Escape),
        _ => {
            if b < 0x20 {
                return Decode::Done(Key::Other);
            }
            let width: usize = if b < 0x80 {
                1
            } else if b < 0xc0 {
                return Decode::Done(Key::Other);
            } else if b < 0xe0 {
                2
            } else if b < 0xf0 {
                3
            } else if b < 0xf8 {
                4
            } else {
                return Decode::Done(Key::Other);
            };
            let mut bytes: Vec<u8> = Vec::new();
            bytes.push(b);
            assert(bytes@ =~= seq![b]);
            if width == 1 {
                Decode::Done(typed(bytes))
            } else {
                Decode::More(Pending::Character(bytes, width))
            }
        },
    }
}

// ---------------------------------------------------------------------------
// The bytes after it

/// The key that an escape, `a` and what follows stand for: the arrows, in both
/// cursor-key modes.
pub open spec fn arrow(a: u8, next: Option<u8>) -> Meaning {
    if (a == 0x5b || a == 0x4f) && next == Some(0x41u8) {
        Meaning::Up
    } else if (a == 0x5b || a == 0x4f) && next == Some(0x42u8) {
        Meaning::Down
    } else {
        Meaning::Other
    }
}

/// What the next byte gives, or its failure to come.
pub open spec fn key_continued(want: Want, next: Option<u8>) -> Read {
    match want {
        Want::Packet => match next {
            Some(b) => if 0x20 <= b <= 0x7e {
                Read::Done(Meaning::Text(seq![b as char]))
            } else {
                Read::Done(Meaning::Other)
            },
            None => Read::Done(Meaning::Other),
        },
        Want::Escape => match next {
            Some(a) => Read::More(Want::Sequence(a)),
            None => Read::Done(Meaning::AllStates),
        },
        Want::Sequence(a) => Read::Done(arrow(a, next)),
        Want::Character(bytes, width) => match next {
            Some(b) => if bytes.len() + 1 < width {
                Read::More(Want::Character(bytes.push(b), width))
            } else {
                Read::Done(text_typed(bytes.push(b)))
            },
            None => Read::Done(Meaning::Other),
        },
    }
}

/// Goes on with a key after one more byte, or after none came in time. A bare
/// escape clears the filter; a sequence that breaks off is no key at all.
pub fn resume(pending: Pending, next: Option<u8>) -> (r: Decode)
    ensures
        r@ == key_continued(pending@, next),
{
    match pending {
        Pending::Packet => match next {
            Some(b) => {
                if 0x20 <= b && b <= 0x7e {
                    let mut s = String::new();
                    s.push(b as char);
                    assert(s@ =~= seq![b as char]);
                    Decode::Done(Key::Text(s))
                } else {
                    Decode::Done(Key::Other)
                }
            },
            None => Decode::Done(Key::Other),
        },
        Pending::Escape => match next {
            Some(a) => Decode::More(Pending::Sequence(a)),
            None => Decode::Done(Key::AllStates),
        },
        Pending::Sequence(a) => {
            if a == 0x5b || a == 0x4f {
                match next {
                    Some(0x41) => Decode::Done(Key::Up),
                    Some(0x42) => Decode::Done(Key::Down),
                    _ => Decode::Done(Key::Other),
                }
            } else {
                Decode::Done(Key::Other)
            }
        },
        Pending::Character(bytes, width) => match next {
            Some(b) => {
                let mut all = bytes;
                all.push(b);
                if all.len() < width {
                    Decode::More(Pending::Character(all, width))
                } else {
                    Decode::Done(typed(all))
                }
            },
            None => Decode::Done(Key::Other),
        },
    }
}

/// What the `i`-th read after an escape brings: nothing past the end.
pub open spec fn nth_read(tail: Seq<Option<u8>>, i: int) -> Option<u8> {
    if i < tail.len() {
        tail[i]
    } else {
        None
    }
}

/// The key that an escape and the reads after it stand for.
pub open spec fn escape_means(tail: Seq<Option<u8>>) -> Meaning {
    match nth_read(tail, 0) {
        None => Meaning::AllStates,
        Some(a) => arrow(a, nth_read(tail, 1)),
    }
}

/// The key that an escape and the reads after it stand for.
pub fn escape_key(tail: &Vec<Option<u8>>) -> (r: Key)
    ensures
        r@ == escape_means(tail@),
{
    let mut state = Pending::Escape;
    let mut i: usize = 0;
    loop
        invariant
            i <= 1,
            i == 0 ==> state@ == Want::Escape,
            i == 1 ==> nth_read(tail@, 0) is Some && state@ == Want::Sequence(
                nth_read(tail@, 0)->0,
            ),
        decreases 2 - i,
    {
        let next: Option<u8> = if i < tail.len() {
            tail[i]
        } else {
            None
        };
        match resume(state, next) {
            Decode::Done(k) => {
                return k;
            },
            Decode::More(p) => {
                state = p;
            },
        }
        i += 1;
    }
}

/// A key that waits for more bytes is complete after at most as many as are
/// owed: no input keeps the reader waiting.
pub open spec fn owed(want: Want) -> int {
    match want {
        Want::Packet => 1,
        Want::Escape => 2,
        Want::Sequence(_) => 1,
        Want::Character(bytes, width) => if width > bytes.len() {
            width - bytes.len()
        } else {
            1
        },
    }
}

/// Each byte brings the key nearer to its end, and one that fails to come ends
/// it.
pub proof fn every_key_ends(want: Want, next: Option<u8>)
    ensures
        next is None ==> key_continued(want, next) is Done,
        key_continued(want, next) matches Read::More(w) ==> 0 < owed(w) < owed(want),
{
}

// ---------------------------------------------------------------------------
// Packets

/// The value of a hexadecimal digit.
pub open spec fn hex_digit(c: char) -> Option<int> {
    if '0' <= c <= '9' {
        Some(c as int - '0' as int)
    } else if 'a' <= c <= 'f' {
        Some(c as int - 'a' as int + 10)
    } else if 'A' <= c <= 'F' {
        Some(c as int - 'A' as int + 10)
    } else {
        None
    }
}

/// The value of a run of hexadecimal digits, if it is one and fits a byte.
pub open spec fn hex_value(s: Seq<char>) -> Option<int>
    decreases s.len(),
{
    if s.len() == 0 {
        Some(0)
    } else {
        match (hex_value(s.drop_last()), hex_digit(s.last())) {
            (Some(v), Some(d)) => if v * 16 + d <= 255 {
                Some(v * 16 + d)
            } else {
                None
            },
            _ => None,
        }
    }
}

/// The byte that a hexadecimal numeral stands for: digits, behind a plus sign or
/// not.
pub open spec fn hex_byte(s: Seq<char>) -> Option<int> {
    let t = text::unsigned(s);
    if t.len() == 0 {
        None
    } else {
        hex_value(t)
    }
}

fn parse_hex_byte(s: &str) -> (r: Option<u8>)
    ensures
        match r {
            Some(b) => hex_byte(s@) == Some(b as int),
            None => hex_byte(s@) is None,
        },
{
    let v = text::chars_of(s);
    let start: usize = if v.len() > 0 && v[0] == '+' {
        1
    } else {
        0
    };
    let ghost t = text::unsigned(s@);
    assert(t =~= v@.skip(start as int));
    if start == v.len() {
        return None;
    }
    let mut n: u16 = 0;
    let mut i: usize = start;
    assert(t.take(0) =~= Seq::<char>::empty());
    while i < v.len()
        invariant
            t == v@.skip(start as int),
            t == text::unsigned(s@),
            start <= i <= v@.len(),
            start < v@.len(),
            n <= 255,
            hex_value(t.take(i - start)) == Some(n as int),
        decreases v@.len() - i,
    {
        let c: char = v[i];
        proof {
            assert(t.take(i + 1 - start).drop_last() =~= t.take(i - start));
            assert(t.take(i + 1 - start).last() == c);
        }
        let d: u16 = if '0' <= c && c <= '9' {
            (c as u32 - 48) as u16
        } else if 'a' <= c && c <= 'f' {
            (c as u32 - 97 + 10) as u16
        } else if 'A' <= c && c <= 'F' {
            (c as u32 - 65 + 10) as u16
        } else {
            proof {
                lemma_hex_fails(t, i + 1 - start);
            }
            return None;
        };
        n = n * 16 + d;
        if n > 255 {
            proof {
                lemma_hex_fails(t, i + 1 - start);
            }
            return None;
        }
        i += 1;
    }
    assert(t.take(i - start) =~= t);
    Some(n as u8)
}

proof fn lemma_hex_fails(s: Seq<char>, n: int)
    requires
        0 <= n <= s.len(),
        hex_value(s.take(n)) is None,
    ensures
        hex_value(s) is None,
    decreases s.len(),
{
    if n == s.len() {
        assert(s.take(n) =~= s);
    } else {
        assert(s.drop_last().take(n) =~= s.take(n));
        lemma_hex_fails(s.drop_last(), n);
    }
}

/// The bytes that deliver the named key: for printable text `text-` and the
/// character's code in hexadecimal.
pub open spec fn packet(name: Seq<char>) -> Option<Seq<u8>> {
    if text::stands_at(name, "text-"@, 0) {
        match hex_byte(name.skip("text-"@.len() as int)) {
            Some(b) => if 0x20 <= b <= 0x7e {
                Some(seq![0u8, b as u8])
            } else {
                None
            },
            None => None,
        }
    } else if name == "up"@ {
        Some(seq![0x1bu8, 0x5b, 0x41])
    } else if name == "down"@ {
        Some(seq![0x1bu8, 0x5b, 0x42])
    } else if name == "enter"@ {
        Some(seq![0x0du8])
    } else if name == "escape"@ {
        Some(seq![0x1bu8])
    } else if name == "backspace"@ {
        Some(seq![0x7fu8])
    } else if name == "clear-search"@ {
        Some(seq![0x15u8])
    } else if name == "search"@ {
        Some(seq![0x2fu8])
    } else if name == "filter"@ {
        Some(seq![0x66u8])
    } else if name == "all"@ {
        Some(seq![0x0cu8])
    } else if name == "space"@ {
        Some(seq![0x20u8])
    } else if name == "j"@ {
        Some(seq![0x6au8])
    } else if name == "k"@ {
        Some(seq![0x6bu8])
    } else if name == "l"@ {
        Some(seq![0x6cu8])
    } else if name == "q"@ {
        Some(seq![0x71u8])
    } else if name == "close"@ {
        Some(seq![0x51u8])
    } else if name == "help"@ {
        Some(seq![0x3fu8])
    } else if name == "versions"@ {
        Some(seq![0x75u8])
    } else {
        None
    }
}

fn one(b: u8) -> (r: Option<Vec<u8>>)
    ensures
        r is Some,
        r->0@ == seq![b],
{
    let mut v: Vec<u8> = Vec::new();
    v.push(b);
    assert(v@ =~= seq![b]);
    Some(v)
}

fn cursor_sequence(last: u8) -> (r: Option<Vec<u8>>)
    ensures
        r is Some,
        r->0@ == seq![0x1bu8, 0x5b, last],
{
    let mut v: Vec<u8> = Vec::new();
    v.push(0x1b);
    v.push(0x5b);
    v.push(last);
    assert(v@ =~= seq![0x1bu8, 0x5b, last]);
    Some(v)
}

/// The bytes that deliver the named key to the daemon, if there is such a key.
pub fn key_packet(name: &str) -> (r: Option<Vec<u8>>)
    ensures
        match r {
            Some(v) => packet(name@) == Some(v@),
            None => packet(name@) is None,
        },
{
    match text::strip_prefix(name, "text-") {
        Some(hex) => {
            return match parse_hex_byte(hex) {
                Some(b) => {
                    if 0x20 <= b && b <= 0x7e {
                        let mut v: Vec<u8> = Vec::new();
                        v.push(0);
                        v.push(b);
                        assert(v@ =~= seq![0u8, b]);
                        Some(v)
                    } else {
                        None
                    }
                },
                None => None,
            };
        },
        None => {},
    }
    if text::same(name, "up") {
        cursor_sequence(0x41)
    } else if text::same(name, "down") {
        cursor_sequence(0x42)
    } else if text::same(name, "enter") {
        one(0x0d)
    } else if text::same(name, "escape") {
        one(0x1b)
    } else if text::same(name, "backspace") {
        one(0x7f)
    } else if text::same(name, "clear-search") {
        one(0x15)
    } else if text::same(name, "search") {
        one(0x2f)
    } else if text::same(name, "filter") {
        one(0x66)
    } else if text::same(name, "all") {
        one(0x0c)
    } else if text::same(name, "space") {
        one(0x20)
    } else if text::same(name, "j") {
        one(0x6a)
    } else if text::same(name, "k") {
        one(0x6b)
    } else if text::same(name, "l") {
        one(0x6c)
    } else if text::same(name, "q") {
        one(0x71)
    } else if text::same(name, "close") {
        one(0x51)
    } else if text::same(name, "help") {
        one(0x3f)
    } else if text::same(name, "versions") {
        one(0x75)
    } else {
        None
    }
}

/// A text packet delivers its character, whatever the character means as a key.
pub proof fn text_packets_deliver_their_character(name: Seq<char>)
    requires
        text::stands_at(name, "text-"@, 0),
        packet(name) is Some,
    ensures
        ({
            let bytes = packet(name)->0;
            &&& bytes.len() == 2
            &&& key_begun(Some(bytes[0])) == Read::More(Want::Packet)
            &&& key_continued(Want::Packet, Some(bytes[1])) == Read::Done(
                Meaning::Text(seq![bytes[1] as char]),
            )
        }),
{
}

} // verus!
