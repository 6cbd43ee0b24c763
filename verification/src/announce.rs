//! Construction of the outbound Announce activity body.
//!
//! The body is built directly as JSON text: a flat object with a fixed
//! field order, whose three variable fields (the acting identity's URI,
//! the announced object and the activity id) are JSON-escaped strings.

use vstd::prelude::*;

verus! {

/// The sixteen lowercase hexadecimal digits.
pub open spec fn hex_char(n: int) -> char {
    if n == 0 {
        '0'
    } else if n == 1 {
        '1'
    } else if n == 2 {
        '2'
    } else if n == 3 {
        '3'
    } else if n == 4 {
        '4'
    } else if n == 5 {
        '5'
    } else if n == 6 {
        '6'
    } else if n == 7 {
        '7'
    } else if n == 8 {
        '8'
    } else if n == 9 {
        '9'
    } else if n == 10 {
        'a'
    } else if n == 11 {
        'b'
    } else if n == 12 {
        'c'
    } else if n == 13 {
        'd'
    } else if n == 14 {
        'e'
    } else {
        'f'
    }
}

/// The code point of a character.
pub open spec fn code_of(c: char) -> int {
    c as int
}

/// The character with the given code point.
pub open spec fn char_of_code(v: int) -> char {
    choose|c: char| code_of(c) == v
}

/// How one character is written inside a JSON string: quote and backslash
/// get a backslash escape, control characters a `\u00XX` escape, and every
/// other character stands as itself.
pub open spec fn escape_char(c: char) -> Seq<char> {
    if c == '"' {
        seq!['\\', '"']
    } else if c == '\\' {
        seq!['\\', '\\']
    } else if 0 <= code_of(c) < 32 {
        seq!['\\', 'u', '0', '0', hex_char(code_of(c) / 16), hex_char(code_of(c) % 16)]
    } else {
        seq![c]
    }
}

/// The JSON escaping of a whole string.
pub open spec fn escaped(s: Seq<char>) -> Seq<char>
    decreases s.len(),
{
    if s.len() == 0 {
        Seq::empty()
    } else {
        escape_char(s[0]) + escaped(s.skip(1))
    }
}

/// Escaping distributes over concatenation.
pub proof fn lemma_escaped_append(a: Seq<char>, b: Seq<char>)
    ensures
        escaped(a + b) == escaped(a) + escaped(b),
    decreases a.len(),
{
    if a.len() == 0 {
        assert(a + b =~= b);
        assert(escaped(a) + escaped(b) =~= escaped(b));
    } else {
        assert((a + b).skip(1) =~= a.skip(1) + b);
        lemma_escaped_append(a.skip(1), b);
        assert(escape_char((a + b)[0]) == escape_char(a[0]));
        assert(escape_char(a[0]) + (escaped(a.skip(1)) + escaped(b)) =~= (escape_char(a[0])
            + escaped(a.skip(1))) + escaped(b));
    }
}

/// The text before the `actor` value.
pub open spec fn body_head() -> Seq<char> {
    "{\"@context\":\"https://www.w3.org/ns/activitystreams\",\"type\":\"Announce\",\"actor\":\""@
}

/// The text between the `actor` and `object` values.
pub open spec fn body_mid_to() -> Seq<char> {
    "\",\"to\":[\"https://www.w3.org/ns/activitystreams#Public\"],\"object\":\""@
}

/// The text between the `object` and `id` values.
pub open spec fn body_mid_id() -> Seq<char> {
    "\",\"id\":\""@
}

/// The text after the `id` value.
pub open spec fn body_tail() -> Seq<char> {
    "\"}"@
}

/// The full Announce body for an acting identity URI, an announced object
/// URI and an activity id.
pub open spec fn announce_body_of(actor_uri: Seq<char>, object_uri: Seq<char>, id: Seq<char>) -> Seq<
    char,
> {
    body_head() + escaped(actor_uri) + body_mid_to() + escaped(object_uri) + body_mid_id()
        + escaped(id) + body_tail()
}

/// One lowercase hexadecimal digit as text.
fn hex_str(n: u32) -> (r: &'static str)
    requires
        n < 16,
    ensures
        r@ == seq![hex_char(n as int)],
{
    let r: &'static str = if n == 0 {
        "0"
    } else if n == 1 {
        "1"
    } else if n == 2 {
        "2"
    } else if n == 3 {
        "3"
    } else if n == 4 {
        "4"
    } else if n == 5 {
        "5"
    } else if n == 6 {
        "6"
    } else if n == 7 {
        "7"
    } else if n == 8 {
        "8"
    } else if n == 9 {
        "9"
    } else if n == 10 {
        "a"
    } else if n == 11 {
        "b"
    } else if n == 12 {
        "c"
    } else if n == 13 {
        "d"
    } else if n == 14 {
        "e"
    } else {
        "f"
    };
    proof {
        reveal_strlit("0");
        reveal_strlit("1");
        reveal_strlit("2");
        reveal_strlit("3");
        reveal_strlit("4");
        reveal_strlit("5");
        reveal_strlit("6");
        reveal_strlit("7");
        reveal_strlit("8");
        reveal_strlit("9");
        reveal_strlit("a");
        reveal_strlit("b");
        reveal_strlit("c");
        reveal_strlit("d");
        reveal_strlit("e");
        reveal_strlit("f");
        assert(r@ =~= seq![hex_char(n as int)]);
    }
    r
}

/// Append the JSON escaping of `s` to `out`.
fn push_escaped(out: &mut String, s: &str)
    ensures
        final(out)@ == old(out)@ + escaped(s@),
{
    let n = s.unicode_len();
    let ghost base: Seq<char> = old(out)@;
    for i in 0..n
        invariant
            n == s@.len(),
            out@ == base + escaped(s@.subrange(0, i as int)),
    {
        let c = s.get_char(i);
        proof {
            assert(s@.subrange(0, i + 1) =~= s@.subrange(0, i as int) + seq![s@[i as int]]);
            lemma_escaped_append(s@.subrange(0, i as int), seq![s@[i as int]]);
            assert(escaped(seq![s@[i as int]]) =~= escape_char(s@[i as int]) + escaped(
                seq![s@[i as int]].skip(1),
            ));
            assert(seq![s@[i as int]].skip(1) =~= Seq::<char>::empty());
            assert(escaped(seq![s@[i as int]]) =~= escape_char(s@[i as int]));
        }
        if c == '"' {
            out.append("\\\"");
            proof {
                reveal_strlit("\\\"");
                assert("\\\""@ =~= escape_char(c));
            }
        } else if c == '\\' {
            out.append("\\\\");
            proof {
                reveal_strlit("\\\\");
                assert("\\\\"@ =~= escape_char(c));
            }
        } else if (c as u32) < 32 {
            let v = c as u32;
            proof {
                assert(v as int == code_of(c));
            }
            out.append("\\u00");
            out.append(hex_str(v / 16));
            out.append(hex_str(v % 16));
            proof {
                reveal_strlit("\\u00");
                assert((v / 16) as int == code_of(c) / 16);
                assert((v % 16) as int == code_of(c) % 16);
                assert("\\u00"@ + seq![hex_char(v as int / 16)] + seq![hex_char(v as int % 16)]
                    =~= escape_char(c));
            }
        } else {
            out.append(s.substring_char(i, i + 1));
            proof {
                assert(s@.subrange(i as int, i + 1) =~= seq![s@[i as int]]);
                assert(seq![s@[i as int]] =~= escape_char(c));
            }
        }
        proof {
            assert(out@ =~= base + escaped(s@.subrange(0, i + 1)));
        }
    }
    proof {
        assert(s@.subrange(0, n as int) =~= s@);
    }
}

/// The numeric value of a lowercase hexadecimal digit; anything else is
/// negative.
pub open spec fn hex_val(c: char) -> int {
    if c == '0' {
        0
    } else if c == '1' {
        1
    } else if c == '2' {
        2
    } else if c == '3' {
        3
    } else if c == '4' {
        4
    } else if c == '5' {
        5
    } else if c == '6' {
        6
    } else if c == '7' {
        7
    } else if c == '8' {
        8
    } else if c == '9' {
        9
    } else if c == 'a' {
        10
    } else if c == 'b' {
        11
    } else if c == 'c' {
        12
    } else if c == 'd' {
        13
    } else if c == 'e' {
        14
    } else if c == 'f' {
        15
    } else {
        -1
    }
}

/// Reading a digit back gives the value it was written from.
pub proof fn lemma_hex_char_val(n: int)
    requires
        0 <= n < 16,
    ensures
        hex_val(hex_char(n)) == n,
{
}

/// The first character encoded in an escaped JSON string, with the number
/// of input characters it spans; nothing at the closing quote or on
/// malformed input.
pub open spec fn unescape_first(s: Seq<char>) -> Option<(char, int)> {
    if s.len() == 0 {
        None
    } else if s[0] == '"' {
        None
    } else if s[0] == '\\' {
        if s.len() >= 2 && s[1] == '"' {
            Some(('"', 2))
        } else if s.len() >= 2 && s[1] == '\\' {
            Some(('\\', 2))
        } else if s.len() >= 6 && s[1] == 'u' && hex_val(s[2]) >= 0 && hex_val(s[3]) >= 0
            && hex_val(s[4]) >= 0 && hex_val(s[5]) >= 0 {
            Some(
                (
                    char_of_code(
                        4096 * hex_val(s[2]) + 256 * hex_val(s[3]) + 16 * hex_val(s[4]) + hex_val(
                            s[5],
                        ),
                    ),
                    6,
                ),
            )
        } else {
            None
        }
    } else {
        Some((s[0], 1))
    }
}

/// The decoded content of a JSON string (read up to and including its
/// closing quote) and the input that follows it.
pub open spec fn parse_string(s: Seq<char>) -> Option<(Seq<char>, Seq<char>)>
    decreases s.len(),
{
    if s.len() == 0 {
        None
    } else if s[0] == '"' {
        Some((Seq::empty(), s.skip(1)))
    } else {
        match unescape_first(s) {
            None => None,
            Some((c, k)) => match parse_string(s.skip(k)) {
                None => None,
                Some((content, rest)) => Some((seq![c] + content, rest)),
            },
        }
    }
}

/// The three variable fields read back out of an Announce body: the
/// acting identity's URI, the announced object and the activity id.
pub open spec fn parse_announce(s: Seq<char>) -> Option<(Seq<char>, Seq<char>, Seq<char>)> {
    let head = body_head();
    if s.len() >= head.len() && s.take(head.len() as int) == head {
        match parse_string(s.skip(head.len() as int)) {
            None => None,
            Some((actor, r1)) => {
                let m1 = body_mid_to().skip(1);
                if r1.len() >= m1.len() && r1.take(m1.len() as int) == m1 {
                    match parse_string(r1.skip(m1.len() as int)) {
                        None => None,
                        Some((object, r2)) => {
                            let m2 = body_mid_id().skip(1);
                            if r2.len() >= m2.len() && r2.take(m2.len() as int) == m2 {
                                match parse_string(r2.skip(m2.len() as int)) {
                                    None => None,
                                    Some((id, r3)) => {
                                        if r3 == body_tail().skip(1) {
                                            Some((actor, object, id))
                                        } else {
                                            None
                                        }
                                    },
                                }
                            } else {
                                None
                            }
                        },
                    }
                } else {
                    None
                }
            },
        }
    } else {
        None
    }
}

/// Decoding an escaped string up to its closing quote gives back the
/// original string and what follows the quote.
pub proof fn lemma_parse_escaped(x: Seq<char>, rest: Seq<char>)
    ensures
        parse_string(escaped(x) + seq!['"'] + rest) == Some((x, rest)),
    decreases x.len(),
{
    let s = escaped(x) + seq!['"'] + rest;
    if x.len() == 0 {
        assert(escaped(x) =~= Seq::<char>::empty());
        assert(s =~= seq!['"'] + rest);
        assert(s[0] == '"');
        assert(s.skip(1) =~= rest);
    } else {
        let c = x[0];
        let e = escape_char(c);
        let s1 = escaped(x.skip(1)) + seq!['"'] + rest;
        assert(escaped(x) == e + escaped(x.skip(1)));
        assert(s =~= e + s1);
        lemma_parse_escaped(x.skip(1), rest);
        if c == '"' {
            assert(s[0] == '\\' && s[1] == '"');
            assert(unescape_first(s) == Some(('"', 2int)));
            assert(s.skip(2) =~= s1);
            assert(seq![c] + x.skip(1) =~= x);
        } else if c == '\\' {
            assert(s[0] == '\\' && s[1] == '\\');
            assert(unescape_first(s) == Some(('\\', 2int)));
            assert(s.skip(2) =~= s1);
            assert(seq![c] + x.skip(1) =~= x);
        } else if 0 <= code_of(c) < 32 {
            let v = code_of(c);
            assert(e == seq!['\\', 'u', '0', '0', hex_char(v / 16), hex_char(v % 16)]);
            assert(s[0] == '\\' && s[1] == 'u' && s[2] == '0' && s[3] == '0' && s[4] == hex_char(
                v / 16,
            ) && s[5] == hex_char(v % 16));
            vstd::arithmetic::div_mod::lemma_fundamental_div_mod(v, 16);
            assert(0 <= v / 16 < 16);
            assert(0 <= v % 16 < 16);
            lemma_hex_char_val(v / 16);
            lemma_hex_char_val(v % 16);
            assert(hex_val(s[2]) == 0 && hex_val(s[3]) == 0);
            assert(s[0] != '"');
            let code = 4096 * hex_val(s[2]) + 256 * hex_val(s[3]) + 16 * hex_val(s[4]) + hex_val(
                s[5],
            );
            assert(code == v);
            assert(code_of(c) == v);
            assert(char_of_code(v) == c);
            assert(unescape_first(s) == Some((c, 6int)));
            assert(s.skip(6) =~= s1);
            assert(seq![c] + x.skip(1) =~= x);
        } else {
            assert(s[0] == c);
            assert(unescape_first(s) == Some((c, 1int)));
            assert(s.skip(1) =~= s1);
            assert(seq![c] + x.skip(1) =~= x);
        }
    }
}

/// Round trip: the constructed Announce body reads back as the three
/// fields it was built from.
pub proof fn lemma_announce_round_trip(actor_uri: Seq<char>, object_uri: Seq<char>, id: Seq<char>)
    ensures
        parse_announce(announce_body_of(actor_uri, object_uri, id)) == Some(
            (actor_uri, object_uri, id),
        ),
{
    reveal_strlit(
        "{\"@context\":\"https://www.w3.org/ns/activitystreams\",\"type\":\"Announce\",\"actor\":\"",
    );
    reveal_strlit("\",\"to\":[\"https://www.w3.org/ns/activitystreams#Public\"],\"object\":\"");
    reveal_strlit("\",\"id\":\"");
    reveal_strlit("\"}");
    let head = body_head();
    let m1 = body_mid_to();
    let m2 = body_mid_id();
    let tail = body_tail();
    let s = announce_body_of(actor_uri, object_uri, id);
    assert(m1[0] == '"' && m2[0] == '"' && tail[0] == '"');
    let r1 = m1.skip(1) + escaped(object_uri) + m2 + escaped(id) + tail;
    let r2 = m2.skip(1) + escaped(id) + tail;
    let r3 = tail.skip(1);
    assert(s.take(head.len() as int) =~= head);
    assert(s.skip(head.len() as int) =~= escaped(actor_uri) + seq!['"'] + r1);
    lemma_parse_escaped(actor_uri, r1);
    assert(r1.take(m1.skip(1).len() as int) =~= m1.skip(1));
    assert(r1.skip(m1.skip(1).len() as int) =~= escaped(object_uri) + seq!['"'] + r2);
    lemma_parse_escaped(object_uri, r2);
    assert(r2.take(m2.skip(1).len() as int) =~= m2.skip(1));
    assert(r2.skip(m2.skip(1).len() as int) =~= escaped(id) + seq!['"'] + r3);
    lemma_parse_escaped(id, r3);
}

/// Build the Announce body announcing `object_uri` under activity id `id`,
/// acted by the identity at `actor_uri`.
pub fn announce_body(actor_uri: &str, object_uri: &str, id: &str) -> (r: String)
    ensures
        r@ == announce_body_of(actor_uri@, object_uri@, id@),
{
    let mut out = String::new();
    out.append(
        "{\"@context\":\"https://www.w3.org/ns/activitystreams\",\"type\":\"Announce\",\"actor\":\"",
    );
    push_escaped(&mut out, actor_uri);
    out.append("\",\"to\":[\"https://www.w3.org/ns/activitystreams#Public\"],\"object\":\"");
    push_escaped(&mut out, object_uri);
    out.append("\",\"id\":\"");
    push_escaped(&mut out, id);
    out.append("\"}");
    proof {
        assert(out@ =~= announce_body_of(actor_uri@, object_uri@, id@));
    }
    out
}

} // verus!
