//! What texts stand for, character by character.
use crate::bytes::{
    hex_digit, hexadecimal, is_alphanumeric, is_unreserved, percent_encoded, percent_encoded_byte,
};
use crate::tracker::{before_colon, protocol_of, urls_of, Protocol};
use crate::tracker_http::decimal;
use crate::tracker_udp::{decimal_value, is_number, port_number};
use vstd::prelude::*;

verus! {

/// The value of a hexadecimal digit.
pub open spec fn digit_value(c: char) -> int {
    if '0' <= c <= '9' {
        c as int - '0' as int
    } else {
        10 + c as int - 'A' as int
    }
}

/// Whether a character is a hexadecimal digit, in capitals.
pub open spec fn is_capital_digit(c: char) -> bool {
    '0' <= c <= '9' || 'A' <= c <= 'F'
}

/// Each byte is written as its two digits in base sixteen, the larger first.
pub proof fn law_hexadecimal_digits(bytes: Seq<u8>, i: int)
    requires
        0 <= i < bytes.len(),
    ensures
        hexadecimal(bytes).len() == 2 * bytes.len(),
        is_capital_digit(hexadecimal(bytes)[2 * i]),
        is_capital_digit(hexadecimal(bytes)[2 * i + 1]),
        bytes[i] == 16 * digit_value(hexadecimal(bytes)[2 * i]) + digit_value(
            hexadecimal(bytes)[2 * i + 1],
        ),
{
    let high = bytes[i] as int / 16;
    let low = bytes[i] as int % 16;
    assert((2 * i) / 2 == i && (2 * i + 1) / 2 == i);
    assert(hexadecimal(bytes)[2 * i] == hex_digit(high));
    assert(hexadecimal(bytes)[2 * i + 1] == hex_digit(low));
}

/// The characters that identifiers are made of are letters and digits.
pub proof fn law_letters_and_digits(b: u8)
    ensures
        is_alphanumeric(b) <==> ('0' as int <= b <= '9' as int) || ('A' as int <= b <= 'Z' as int)
            || ('a' as int <= b <= 'z' as int),
{
}

/// The bytes that a text of a URL stands for, as its reader takes it: a percent sign and two
/// digits are a byte, and so is any other character.
pub open spec fn url_decoded(text: Seq<char>) -> Seq<u8>
    decreases text.len(),
{
    if text.len() == 0 {
        Seq::empty()
    } else if text[0] == '%' && text.len() >= 3 {
        seq![(16 * digit_value(text[1]) + digit_value(text[2])) as u8] + url_decoded(text.skip(3))
    } else {
        seq![text[0] as u8] + url_decoded(text.skip(1))
    }
}

/// The reader of a URL finds the bytes that were put into it, in their order.
pub proof fn law_url_text_is_read_back(bytes: Seq<u8>)
    ensures
        url_decoded(percent_encoded(bytes)) == bytes,
    decreases bytes.len(),
{
    let text = percent_encoded(bytes);
    if bytes.len() > 0 {
        let b = bytes[0];
        let first = percent_encoded_byte(b);
        let rest = bytes.drop_first();
        law_url_text_is_read_back(rest);
        assert(text == first + percent_encoded(rest));
        assert(bytes =~= seq![b] + rest);
        if is_unreserved(b) {
            assert(text[0] == b as char);
            assert(text.skip(1) =~= percent_encoded(rest));
            assert(text[0] != '%');
            assert(text[0] as u8 == b);
        } else {
            assert(text[0] == '%');
            assert(text[1] == hex_digit(b as int / 16));
            assert(text[2] == hex_digit(b as int % 16));
            assert(text.skip(3) =~= percent_encoded(rest));
            assert(digit_value(text[1]) == b as int / 16);
            assert(digit_value(text[2]) == b as int % 16);
        }
    } else {
        assert(text =~= Seq::<char>::empty());
        assert(url_decoded(text) =~= bytes);
    }
}

/// Letters, digits and four signs stand for themselves in a URL; every other byte takes three
/// characters.
pub proof fn law_which_bytes_stand_for_themselves(b: u8)
    ensures
        percent_encoded(seq![b]) == if ('0' as int <= b <= '9' as int) || ('A' as int <= b
            <= 'Z' as int) || ('a' as int <= b <= 'z' as int) || b == '-' as int || b == '.' as int
            || b == '_' as int || b == '~' as int {
            seq![b as char]
        } else {
            seq!['%', hex_digit(b as int / 16), hex_digit(b as int % 16)]
        },
{
    let one = seq![b];
    assert(one.drop_first() =~= Seq::<u8>::empty());
    assert(percent_encoded(one.drop_first()) =~= Seq::<char>::empty());
    assert(percent_encoded(one) =~= percent_encoded_byte(b));
}

/// A number is written digit by digit: the last digit is what is left when it is divided by ten,
/// and the digits before it are those of the quotient.
pub proof fn law_digits_of_a_number(n: nat)
    ensures
        decimal(n).len() >= 1,
        decimal(n).last() as int == '0' as int + n % 10,
        n >= 10 ==> decimal(n).drop_last() == decimal(n / 10),
        n < 10 ==> decimal(n).len() == 1,
{
    if n >= 10 {
        assert(decimal(n).drop_last() =~= decimal(n / 10));
    }
}

/// A number that is written is read back.
pub proof fn law_written_number_is_read_back(n: nat)
    ensures
        is_number(decimal(n)),
        decimal_value(decimal(n)) == n,
        n <= u16::MAX ==> port_number(decimal(n)) == Some(n as u16),
    decreases n,
{
    law_digits_of_a_number(n);
    let text = decimal(n);
    if n >= 10 {
        law_written_number_is_read_back(n / 10);
        assert forall|i: int| 0 <= i < text.len() implies '0' <= #[trigger] text[i] <= '9' by {
            if i < text.len() - 1 {
                assert(text[i] == decimal(n / 10)[i]);
            }
        }
    } else {
        assert(text.drop_last() =~= Seq::<char>::empty());
        assert(decimal_value(text.drop_last()) == 0);
    }
}

/// Which texts are ports: those of digits alone, at least one, whose value has sixteen bits; each
/// digit counts ten times what the next does.
pub proof fn law_which_texts_are_ports(text: Seq<char>, digit: char)
    ensures
        port_number(text) is Some <==> text.len() > 0 && (forall|i: int|
            0 <= i < text.len() ==> '0' <= #[trigger] text[i] <= '9') && decimal_value(text)
            <= 65535,
        port_number(text) matches Some(port) ==> port == decimal_value(text),
        decimal_value(Seq::<char>::empty()) == 0,
        '0' <= digit <= '9' ==> decimal_value(text.push(digit)) == 10 * decimal_value(text) + (
        digit as int - '0' as int),
{
    assert(text.push(digit).drop_last() =~= text);
}

/// The protocol of an address is the text up to the first colon, and all of it where there is no
/// colon.
pub proof fn law_protocol_ends_at_colon(url: Seq<char>)
    ensures
        before_colon(url).len() <= url.len(),
        before_colon(url) == url.take(before_colon(url).len() as int),
        forall|i: int| 0 <= i < before_colon(url).len() ==> #[trigger] url[i] != ':',
        before_colon(url).len() < url.len() ==> url[before_colon(url).len() as int] == ':',
    decreases url.len(),
{
    let name = before_colon(url);
    if url.len() > 0 && url[0] != ':' {
        let rest = url.skip(1);
        law_protocol_ends_at_colon(rest);
        assert(name =~= url.take(name.len() as int)) by {
            assert forall|i: int| 0 <= i < name.len() implies name[i] == url[i] by {
                if i > 0 {
                    assert(name[i] == before_colon(rest)[i - 1]);
                    assert(before_colon(rest)[i - 1] == rest[i - 1]);
                }
            }
        }
        assert forall|i: int| 0 <= i < name.len() implies #[trigger] url[i] != ':' by {
            if i > 0 {
                assert(rest[i - 1] != ':');
            }
        }
        if name.len() < url.len() {
            assert(rest[name.len() - 1] == url[name.len() as int]);
        }
    } else {
        assert(name =~= url.take(0));
    }
}

/// A tracker is spoken to as its address begins: with `http` or `https`, or with `udp`, before the
/// first colon.
pub proof fn law_protocols_by_name(name: Seq<char>, rest: Seq<char>)
    requires
        forall|i: int| 0 <= i < name.len() ==> #[trigger] name[i] != ':',
    ensures
        protocol_of(name + seq![':'] + rest) == if name == "http"@ || name == "https"@ {
            Some(Protocol::Http)
        } else if name == "udp"@ {
            Some(Protocol::Udp)
        } else {
            None
        },
{
    let url = name + seq![':'] + rest;
    let found = before_colon(url);
    law_protocol_ends_at_colon(url);
    if found.len() < name.len() {
        assert(url[found.len() as int] == name[found.len() as int]);
    }
    if found.len() > name.len() {
        assert(url[name.len() as int] == ':');
    }
    assert(found =~= name);
}

/// The first tracker asked is that of `announce`, and the others follow in the order of the list.
pub proof fn law_trackers_in_order(announce: Seq<char>, list: Seq<Seq<char>>, i: int)
    ensures
        urls_of(announce, None).len() == 1,
        urls_of(announce, None)[0] == announce,
        urls_of(announce, Some(list)).len() == list.len() + 1,
        urls_of(announce, Some(list))[0] == announce,
        0 <= i < list.len() ==> urls_of(announce, Some(list))[i + 1] == list[i],
{
}

} // verus!
