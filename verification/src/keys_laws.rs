//! Which keys stand for what, however their bytes come in.

use crate::keys;
use crate::keys::Meaning;
use crate::keys::Read;
use crate::keys::Want;
use crate::text;
use vstd::prelude::*;
use vstd::utf8::*;

verus! {

/// What a key comes to when these bytes come in one by one, from position `i`
/// on.
pub open spec fn fed(r: Read, bytes: Seq<u8>, i: int) -> Read
    decreases bytes.len() - i,
{
    if i >= bytes.len() {
        r
    } else {
        match r {
            Read::Done(_) => r,
            Read::More(w) => fed(keys::key_continued(w, Some(bytes[i])), bytes, i + 1),
        }
    }
}

/// In the list these keys have a meaning: j and k move, l and enter jump, q,
/// ctrl-c and ctrl-d quit, Q closes, and so on. The end of the input quits.
pub proof fn the_keys_of_the_list_are_these()
    ensures
        keys::key_begun(Some('j' as u8)) == Read::Done(Meaning::Down),
        keys::key_begun(Some('k' as u8)) == Read::Done(Meaning::Up),
        keys::key_begun(Some('l' as u8)) == Read::Done(Meaning::Jump),
        keys::key_begun(Some('\r' as u8)) == Read::Done(Meaning::Jump),
        keys::key_begun(Some('\n' as u8)) == Read::Done(Meaning::Jump),
        keys::key_begun(Some('q' as u8)) == Read::Done(Meaning::Quit),
        keys::key_begun(Some(3u8)) == Read::Done(Meaning::Quit),
        keys::key_begun(Some(4u8)) == Read::Done(Meaning::Quit),
        keys::key_begun(None) == Read::Done(Meaning::Quit),
        keys::key_begun(Some('Q' as u8)) == Read::Done(Meaning::Close),
        keys::key_begun(Some('?' as u8)) == Read::Done(Meaning::Help),
        keys::key_begun(Some('u' as u8)) == Read::Done(Meaning::Versions),
        keys::key_begun(Some('/' as u8)) == Read::Done(Meaning::Search),
        keys::key_begun(Some('f' as u8)) == Read::Done(Meaning::CycleState),
        keys::key_begun(Some(12u8)) == Read::Done(Meaning::AllStates),
        keys::key_begun(Some(8u8)) == Read::Done(Meaning::Backspace),
        keys::key_begun(Some(127u8)) == Read::Done(Meaning::Backspace),
        keys::key_begun(Some(21u8)) == Read::Done(Meaning::ClearSearch),
{
}

/// A byte that starts no key of the list means nothing there.
pub proof fn other_bytes_mean_nothing_in_the_list(b: u8)
    requires
        !seq![
            'j' as u8, 'k' as u8, 'l' as u8, 13u8, 10u8, 'q' as u8, 3u8, 4u8, 'Q' as u8, '?' as u8, 'u' as u8, '/' as u8,
            'f' as u8, 12u8, 8u8, 127u8, 21u8, 0u8, 27u8,
        ].contains(b),
    ensures
        keys::key_begun(Some(b)) == Read::Done(Meaning::Other),
{
    let all = seq![
        'j' as u8, 'k' as u8, 'l' as u8, 13u8, 10u8, 'q' as u8, 3u8, 4u8, 'Q' as u8, '?' as u8, 'u' as u8, '/' as u8,
        'f' as u8, 12u8, 8u8, 127u8, 21u8, 0u8, 27u8,
    ];
    assert(all[0] != b && all[1] != b && all[2] != b && all[3] != b && all[4] != b && all[5] != b && all[6] != b
        && all[7] != b && all[8] != b && all[9] != b && all[10] != b && all[11] != b && all[12] != b && all[13] != b
        && all[14] != b && all[15] != b && all[16] != b && all[17] != b && all[18] != b);
}

/// In a search these keys have a meaning; a control key without one is dropped.
pub proof fn the_keys_of_a_search_are_these(b: u8)
    ensures
        keys::search_key_begun(None) == Read::Done(Meaning::Quit),
        keys::search_key_begun(Some('\r' as u8)) == Read::Done(Meaning::Jump),
        keys::search_key_begun(Some('\n' as u8)) == Read::Done(Meaning::Jump),
        keys::search_key_begun(Some(3u8)) == Read::Done(Meaning::Quit),
        keys::search_key_begun(Some(4u8)) == Read::Done(Meaning::Quit),
        keys::search_key_begun(Some(8u8)) == Read::Done(Meaning::Backspace),
        keys::search_key_begun(Some(127u8)) == Read::Done(Meaning::Backspace),
        keys::search_key_begun(Some(21u8)) == Read::Done(Meaning::ClearSearch),
        keys::search_key_begun(Some(14u8)) == Read::Done(Meaning::Down),
        keys::search_key_begun(Some(16u8)) == Read::Done(Meaning::Up),
        b < 32 && b != 13 && b != 10 && b != 3 && b != 4 && b != 8 && b != 21 && b != 14 && b != 16 && b != 27
            ==> keys::search_key_begun(Some(b)) == Read::Done(Meaning::Other),
        (128 <= b && b < 192) || b >= 248 ==> keys::search_key_begun(Some(b)) == Read::Done(Meaning::Other),
{
}

/// Any character that is typed in a search arrives as itself, over however many
/// bytes it comes in.
pub proof fn a_typed_character_arrives_whole(c: char)
    requires
        c >= ' ',
        c != '\u{7f}',
    ensures
        ({
            let bytes = encode_utf8(seq![c]);
            &&& 1 <= bytes.len() <= 4
            &&& fed(keys::search_key_begun(Some(bytes[0])), bytes, 1) == Read::Done(Meaning::Text(seq![c]))
        }),
{
    let chars = seq![c];
    let bytes = encode_utf8(chars);
    char_is_scalar(c);
    encode_utf8_first_scalar(chars);
    encode_utf8_valid_utf8(chars);
    encode_utf8_decode_utf8(chars);
    assert(chars.drop_first() =~= Seq::<char>::empty());
    assert(encode_utf8(Seq::<char>::empty()) =~= Seq::<u8>::empty());
    assert(bytes =~= encode_scalar(c as u32));
    reveal_with_fuel(fed, 5);
    let b = bytes[0];
    if is_leading_byte_width_1(b) {
        let s = c as u32;
        assert(bytes.len() == 1);
        assert(has_width_1_encoding(s));
        assert(b as u32 == s) by {
            assert(b == (s & 0x7f) as u8);
            assert(s <= 0x7f ==> (s & 0x7f) as u8 as u32 == s) by (bit_vector);
        }
        assert(seq![b] =~= bytes);
    } else if is_leading_byte_width_2(b) {
        assert(seq![b].push(bytes[1]) =~= bytes);
    } else if is_leading_byte_width_3(b) {
        assert(seq![b].push(bytes[1]).push(bytes[2]) =~= bytes);
    } else {
        assert(seq![b].push(bytes[1]).push(bytes[2]).push(bytes[3]) =~= bytes);
    }
}

/// An escape by itself clears; with the rest of an arrow it moves; with anything
/// else it means nothing. It makes no difference whether the bytes come in one by
/// one or together.
pub proof fn an_escape_is_itself_or_an_arrow(a: u8, b: u8)
    ensures
        keys::key_begun(Some(27u8)) == Read::More(Want::Escape),
        keys::search_key_begun(Some(27u8)) == Read::More(Want::Escape),
        keys::key_continued(Want::Escape, None) == Read::Done(Meaning::AllStates),
        fed(Read::More(Want::Escape), seq!['[' as u8, 'A' as u8], 0) == Read::Done(Meaning::Up),
        fed(Read::More(Want::Escape), seq!['O' as u8, 'A' as u8], 0) == Read::Done(Meaning::Up),
        fed(Read::More(Want::Escape), seq!['[' as u8, 'B' as u8], 0) == Read::Done(Meaning::Down),
        fed(Read::More(Want::Escape), seq!['O' as u8, 'B' as u8], 0) == Read::Done(Meaning::Down),
        (a != 91 && a != 79) || (b != 65 && b != 66) ==> fed(Read::More(Want::Escape), seq![a, b], 0) == Read::Done(
            Meaning::Other,
        ),
        keys::key_continued(Want::Sequence(a), None) == Read::Done(Meaning::Other),
        keys::escape_means(seq![None]) == Meaning::AllStates,
        keys::escape_means(Seq::empty()) == Meaning::AllStates,
        Read::Done(keys::escape_means(seq![Some(a), Some(b)])) == fed(Read::More(Want::Escape), seq![a, b], 0),
        keys::escape_means(seq![Some(a), None]) == Meaning::Other,
        keys::escape_means(seq![Some(a)]) == Meaning::Other,
{
    reveal_with_fuel(fed, 3);
    let one: Seq<Option<u8>> = seq![None];
    assert(one[0] is None);
    let two = seq![Some(a), Some(b)];
    assert(two[0] == Some(a) && two[1] == Some(b));
    let three: Seq<Option<u8>> = seq![Some(a), None];
    assert(three[0] == Some(a) && three[1] is None);
    let four = seq![Some(a)];
    assert(four[0] == Some(a));
}

/// A text packet delivers the printable character behind it, and nothing else.
pub proof fn a_text_packet_delivers_a_printable_character(b: u8)
    ensures
        keys::key_begun(Some(0u8)) == Read::More(Want::Packet),
        32 <= b <= 126 ==> keys::key_continued(Want::Packet, Some(b)) == Read::Done(Meaning::Text(seq![b as char])),
        b < 32 || b > 126 ==> keys::key_continued(Want::Packet, Some(b)) == Read::Done(Meaning::Other),
        keys::key_continued(Want::Packet, None) == Read::Done(Meaning::Other),
{
}

/// What the key of this name means when its packet is read in the list.
pub open spec fn delivers(name: Seq<char>, m: Meaning) -> bool {
    keys::packet(name) matches Some(bytes) && bytes.len() > 0 && fed(keys::key_begun(Some(bytes[0])), bytes, 1)
        == Read::Done(m)
}

/// A key that is sent by name arrives as that key.
pub proof fn keys_arrive_by_name()
    ensures
        delivers("up"@, Meaning::Up),
        delivers("down"@, Meaning::Down),
        delivers("enter"@, Meaning::Jump),
        delivers("backspace"@, Meaning::Backspace),
        delivers("clear-search"@, Meaning::ClearSearch),
        delivers("search"@, Meaning::Search),
        delivers("filter"@, Meaning::CycleState),
        delivers("all"@, Meaning::AllStates),
        delivers("j"@, Meaning::Down),
        delivers("k"@, Meaning::Up),
        delivers("l"@, Meaning::Jump),
        delivers("q"@, Meaning::Quit),
        delivers("close"@, Meaning::Close),
        delivers("help"@, Meaning::Help),
        delivers("versions"@, Meaning::Versions),
        keys::packet("escape"@) == Some(seq![27u8]),
        keys::packet("space"@) == Some(seq![32u8]),
{
    lemma_names();
    reveal_with_fuel(fed, 3);
    assert(keys::packet("up"@) == Some(seq![0x1bu8, 0x5b, 0x41]));
    assert(keys::packet("down"@) == Some(seq![0x1bu8, 0x5b, 0x42]));
    assert(keys::packet("enter"@) == Some(seq![0x0du8]));
    assert(keys::packet("escape"@) == Some(seq![0x1bu8]));
    assert(keys::packet("backspace"@) == Some(seq![0x7fu8]));
    assert(keys::packet("clear-search"@) == Some(seq![0x15u8]));
    assert(keys::packet("search"@) == Some(seq![0x2fu8]));
    assert(keys::packet("filter"@) == Some(seq![0x66u8]));
    assert(keys::packet("all"@) == Some(seq![0x0cu8]));
    assert(keys::packet("space"@) == Some(seq![0x20u8]));
    assert(keys::packet("j"@) == Some(seq![0x6au8]));
    assert(keys::packet("k"@) == Some(seq![0x6bu8]));
    assert(keys::packet("l"@) == Some(seq![0x6cu8]));
    assert(keys::packet("q"@) == Some(seq![0x71u8]));
    assert(keys::packet("close"@) == Some(seq![0x51u8]));
    assert(keys::packet("help"@) == Some(seq![0x3fu8]));
    assert(keys::packet("versions"@) == Some(seq![0x75u8]));
}

/// The names differ in their length, their first or their second letter, and none
/// starts like a text packet.
proof fn lemma_names()
    ensures
        "up"@.len() == 2 && "up"@[0] == 'u',
        "down"@.len() == 4 && "down"@[0] == 'd',
        "enter"@.len() == 5 && "enter"@[0] == 'e',
        "escape"@.len() == 6 && "escape"@[0] == 'e',
        "backspace"@.len() == 9 && "backspace"@[0] == 'b',
        "clear-search"@.len() == 12 && "clear-search"@[0] == 'c',
        "search"@.len() == 6 && "search"@[0] == 's',
        "filter"@.len() == 6 && "filter"@[0] == 'f',
        "all"@.len() == 3 && "all"@[0] == 'a',
        "space"@.len() == 5 && "space"@[0] == 's',
        "j"@.len() == 1 && "j"@[0] == 'j',
        "k"@.len() == 1 && "k"@[0] == 'k',
        "l"@.len() == 1 && "l"@[0] == 'l',
        "q"@.len() == 1 && "q"@[0] == 'q',
        "close"@.len() == 5 && "close"@[0] == 'c',
        "help"@.len() == 4 && "help"@[0] == 'h',
        "versions"@.len() == 8 && "versions"@[0] == 'v',
        forall|name: Seq<char>| #[trigger] text::stands_at(name, "text-"@, 0) ==> name.len() >= 5 && name[0] == 't',
{
    reveal_strlit("up");
    reveal_strlit("down");
    reveal_strlit("enter");
    reveal_strlit("escape");
    reveal_strlit("backspace");
    reveal_strlit("clear-search");
    reveal_strlit("search");
    reveal_strlit("filter");
    reveal_strlit("all");
    reveal_strlit("space");
    reveal_strlit("j");
    reveal_strlit("k");
    reveal_strlit("l");
    reveal_strlit("q");
    reveal_strlit("close");
    reveal_strlit("help");
    reveal_strlit("versions");
    reveal_strlit("text-");
    assert forall|name: Seq<char>| #[trigger] text::stands_at(name, "text-"@, 0) implies name.len() >= 5 && name[0]
        == 't' by {
        assert(name.subrange(0, 5)[0] == "text-"@[0]);
    }
}

/// A character is sent by its code in hexadecimal, in capitals or not, where it
/// is printable.
pub proof fn characters_are_sent_by_their_code(hi: int, lo: int)
    requires
        0 <= hi < 16,
        0 <= lo < 16,
    ensures
        ({
            let small = seq!['0', '1', '2', '3', '4', '5', '6', '7', '8', '9', 'a', 'b', 'c', 'd', 'e', 'f'];
            let large = seq!['0', '1', '2', '3', '4', '5', '6', '7', '8', '9', 'A', 'B', 'C', 'D', 'E', 'F'];
            let code = 16 * hi + lo;
            &&& 32 <= code <= 126 ==> keys::packet("text-"@ + seq![small[hi], small[lo]]) == Some(seq![0u8, code as u8])
            &&& 32 <= code <= 126 ==> keys::packet("text-"@ + seq![large[hi], large[lo]]) == Some(seq![0u8, code as u8])
            &&& code < 32 || code > 126 ==> keys::packet("text-"@ + seq![small[hi], small[lo]]) is None
        }),
{
    let small = seq!['0', '1', '2', '3', '4', '5', '6', '7', '8', '9', 'a', 'b', 'c', 'd', 'e', 'f'];
    let large = seq!['0', '1', '2', '3', '4', '5', '6', '7', '8', '9', 'A', 'B', 'C', 'D', 'E', 'F'];
    lemma_hex(hi);
    lemma_hex(lo);
    lemma_packet(small[hi], hi, small[lo], lo);
    lemma_packet(large[hi], hi, large[lo], lo);
}

proof fn lemma_hex(d: int)
    requires
        0 <= d < 16,
    ensures
        ({
            let small = seq!['0', '1', '2', '3', '4', '5', '6', '7', '8', '9', 'a', 'b', 'c', 'd', 'e', 'f'];
            let large = seq!['0', '1', '2', '3', '4', '5', '6', '7', '8', '9', 'A', 'B', 'C', 'D', 'E', 'F'];
            &&& keys::hex_digit(small[d]) == Some(d)
            &&& keys::hex_digit(large[d]) == Some(d)
        }),
{
    if d == 0 {} else if d == 1 {} else if d == 2 {} else if d == 3 {} else if d == 4 {} else if d == 5 {}
    else if d == 6 {} else if d == 7 {} else if d == 8 {} else if d == 9 {} else if d == 10 {} else if d == 11 {}
    else if d == 12 {} else if d == 13 {} else if d == 14 {} else {}
}

proof fn lemma_packet(a: char, hi: int, b: char, lo: int)
    requires
        0 <= hi < 16,
        0 <= lo < 16,
        keys::hex_digit(a) == Some(hi),
        keys::hex_digit(b) == Some(lo),
    ensures
        ({
            let code = 16 * hi + lo;
            &&& 32 <= code <= 126 ==> keys::packet("text-"@ + seq![a, b]) == Some(seq![0u8, code as u8])
            &&& code < 32 || code > 126 ==> keys::packet("text-"@ + seq![a, b]) is None
        }),
{
    reveal_strlit("text-");
    let name = "text-"@ + seq![a, b];
    let t = seq![a, b];
    assert(name.subrange(0, 5) =~= "text-"@);
    assert(name.skip(5) =~= t);
    assert(text::unsigned(t) =~= t);
    assert(t.drop_last() =~= seq![a]);
    assert(seq![a].drop_last() =~= Seq::<char>::empty());
    reveal_with_fuel(keys::hex_value, 3);
    assert(keys::hex_value(seq![a]) == Some(hi));
    assert(keys::hex_value(t) == Some(16 * hi + lo));
}

} // verus!
