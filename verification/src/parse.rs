//! Reading the persisted document back: a recursive-descent parser for the
//! registry file. The grammar is the one the renderer writes, with
//! whitespace tolerated between tokens and the usual string escapes
//! accepted, so documents written pretty-printed load as well. Every
//! function mirrors a specification-level parser exactly.

use vstd::prelude::*;
use crate::errors::ErrorKind;
use crate::json::{
    key_address, key_connections, key_local_port, key_port, key_port_mappings, key_remote_port,
    key_slug, key_ssh_key, key_user,
};
use crate::registry::{Config, Connection, ConnectionV, PortMapping, conns_view};
use crate::text::{
    chars_to_string, ctrl_char, ctrl_char_exec, digit_val, digit_val_exec, hexd_val,
    hexd_val_exec, is_digit, is_digit_exec, is_ws, is_ws_exec, str_to_chars,
};

verus! {

/// The suffix after leading whitespace.
pub open spec fn ws(s: Seq<char>) -> Seq<char>
    decreases s.len(),
{
    if s.len() > 0 && is_ws(s[0]) {
        ws(s.skip(1))
    } else {
        s
    }
}

pub proof fn lemma_ws_le(s: Seq<char>)
    ensures
        ws(s).len() <= s.len(),
    decreases s.len(),
{
    if s.len() > 0 && is_ws(s[0]) {
        lemma_ws_le(s.skip(1));
    }
}

/// Skipping whitespace does nothing on a suffix that starts without any.
pub proof fn lemma_ws_id(s: Seq<char>)
    requires
        s.len() == 0 || !is_ws(s[0]),
    ensures
        ws(s) == s,
{
}

/// The suffix after whitespace and the literal token `t`, if present.
pub open spec fn tag(s: Seq<char>, t: Seq<char>) -> Option<Seq<char>> {
    let s1 = ws(s);
    if t.len() <= s1.len() && s1.take(t.len() as int) == t {
        Some(s1.skip(t.len() as int))
    } else {
        None
    }
}

pub proof fn lemma_tag_le(s: Seq<char>, t: Seq<char>)
    ensures
        tag(s, t) is Some ==> (tag(s, t)->Some_0).len() + t.len() <= s.len(),
{
    lemma_ws_le(s);
}

/// The value of a digit run, left to right, on top of `acc`; fails past the
/// largest sixteen-bit value.
pub open spec fn sp_digits(s: Seq<char>, acc: int) -> Option<(u16, Seq<char>)>
    decreases s.len(),
{
    if s.len() > 0 && is_digit(s[0]) {
        let v = acc * 10 + digit_val(s[0]);
        if v > 0xffff {
            None
        } else {
            sp_digits(s.skip(1), v)
        }
    } else {
        if 0 <= acc <= 0xffff {
            Some((acc as u16, s))
        } else {
            None
        }
    }
}

pub proof fn lemma_sp_digits_le(s: Seq<char>, acc: int)
    ensures
        sp_digits(s, acc) is Some ==> (sp_digits(s, acc)->Some_0).1.len() <= s.len(),
    decreases s.len(),
{
    if s.len() > 0 && is_digit(s[0]) {
        let v = acc * 10 + digit_val(s[0]);
        if v <= 0xffff {
            lemma_sp_digits_le(s.skip(1), v);
        }
    }
}

/// A JSON number holding a sixteen-bit port: digits without a leading zero.
pub open spec fn sp_u16(s: Seq<char>) -> Option<(u16, Seq<char>)> {
    let s1 = ws(s);
    if s1.len() > 0 && is_digit(s1[0]) {
        if s1[0] == '0' {
            if s1.len() > 1 && is_digit(s1[1]) {
                None
            } else {
                Some((0u16, s1.skip(1)))
            }
        } else {
            sp_digits(s1, 0)
        }
    } else {
        None
    }
}

pub proof fn lemma_sp_u16_le(s: Seq<char>)
    ensures
        sp_u16(s) is Some ==> (sp_u16(s)->Some_0).1.len() <= s.len(),
{
    lemma_ws_le(s);
    let s1 = ws(s);
    if s1.len() > 0 && is_digit(s1[0]) && s1[0] != '0' {
        lemma_sp_digits_le(s1, 0);
    }
}

/// The character an escape letter stands for.
pub open spec fn unescape_char(c: char) -> Option<char> {
    if c == '"' {
        Some('"')
    } else if c == '\\' {
        Some('\\')
    } else if c == '/' {
        Some('/')
    } else if c == 'n' {
        Some('\n')
    } else if c == 't' {
        Some('\t')
    } else if c == 'r' {
        Some('\r')
    } else if c == 'b' {
        Some('\u{0008}')
    } else if c == 'f' {
        Some('\u{000C}')
    } else {
        None
    }
}

fn unescape_char_exec(c: char) -> (r: Option<char>)
    ensures
        r == unescape_char(c),
{
    match c {
        '"' => Some('"'),
        '\\' => Some('\\'),
        '/' => Some('/'),
        'n' => Some('\n'),
        't' => Some('\t'),
        'r' => Some('\r'),
        'b' => Some('\u{0008}'),
        'f' => Some('\u{000C}'),
        _ => None,
    }
}

/// The body of a JSON string after its opening quote: characters up to the
/// closing quote, with backslash escapes resolved. A `\u00..` escape below
/// 0x20 yields the control character it codes.
pub open spec fn sp_str_rest(s: Seq<char>) -> Option<(Seq<char>, Seq<char>)>
    decreases s.len(),
{
    if s.len() == 0 {
        None
    } else if s[0] == '"' {
        Some((Seq::empty(), s.skip(1)))
    } else if s[0] == '\\' {
        if s.len() >= 2 && s[1] == 'u' {
            if s.len() >= 6 && hexd_val(s[2]) >= 0 && hexd_val(s[3]) >= 0 && hexd_val(s[4]) >= 0
                && hexd_val(s[5]) >= 0 {
                let v = ((hexd_val(s[2]) * 16 + hexd_val(s[3])) * 16 + hexd_val(s[4])) * 16
                    + hexd_val(s[5]);
                if v < 0x20 {
                    match sp_str_rest(s.skip(6)) {
                        Some((t, r)) => Some((seq![ctrl_char(v)] + t, r)),
                        None => None,
                    }
                } else {
                    None
                }
            } else {
                None
            }
        } else if s.len() >= 2 && unescape_char(s[1]) is Some {
            match sp_str_rest(s.skip(2)) {
                Some((t, r)) => Some((seq![unescape_char(s[1])->Some_0] + t, r)),
                None => None,
            }
        } else {
            None
        }
    } else {
        match sp_str_rest(s.skip(1)) {
            Some((t, r)) => Some((seq![s[0]] + t, r)),
            None => None,
        }
    }
}

pub proof fn lemma_sp_str_rest_le(s: Seq<char>)
    ensures
        sp_str_rest(s) is Some ==> (sp_str_rest(s)->Some_0).1.len() <= s.len(),
    decreases s.len(),
{
    if s.len() == 0 {
    } else if s[0] == '"' {
    } else if s[0] == '\\' {
        if s.len() >= 2 && s[1] == 'u' {
            if s.len() >= 6 {
                lemma_sp_str_rest_le(s.skip(6));
            }
        } else if s.len() >= 2 && unescape_char(s[1]) is Some {
            lemma_sp_str_rest_le(s.skip(2));
        }
    } else {
        lemma_sp_str_rest_le(s.skip(1));
    }
}

/// A JSON string value, after optional whitespace.
pub open spec fn sp_string(s: Seq<char>) -> Option<(Seq<char>, Seq<char>)> {
    let s1 = ws(s);
    if s1.len() > 0 && s1[0] == '"' {
        sp_str_rest(s1.skip(1))
    } else {
        None
    }
}

pub proof fn lemma_sp_string_le(s: Seq<char>)
    ensures
        sp_string(s) is Some ==> (sp_string(s)->Some_0).1.len() <= s.len(),
{
    lemma_ws_le(s);
    let s1 = ws(s);
    if s1.len() > 0 && s1[0] == '"' {
        lemma_sp_str_rest_le(s1.skip(1));
    }
}

/// One port mapping object.
pub open spec fn sp_mapping(s: Seq<char>) -> Option<(PortMapping, Seq<char>)> {
    match tag(s, seq!['{']) {
        None => None,
        Some(s1) => match tag(s1, key_local_port()) {
            None => None,
            Some(s2) => match sp_u16(s2) {
                None => None,
                Some((lp, s3)) => match tag(s3, seq![',']) {
                    None => None,
                    Some(s4) => match tag(s4, key_remote_port()) {
                        None => None,
                        Some(s5) => match sp_u16(s5) {
                            None => None,
                            Some((rp, s6)) => match tag(s6, seq!['}']) {
                                None => None,
                                Some(s7) => Some(
                                    (PortMapping { local_port: lp, remote_port: rp }, s7),
                                ),
                            },
                        },
                    },
                },
            },
        },
    }
}

pub proof fn lemma_sp_mapping_le(s: Seq<char>)
    ensures
        sp_mapping(s) is Some ==> (sp_mapping(s)->Some_0).1.len() <= s.len(),
{
    if sp_mapping(s) is Some {
        lemma_tag_le(s, seq!['{']);
        let s1 = tag(s, seq!['{'])->Some_0;
        lemma_tag_le(s1, key_local_port());
        let s2 = tag(s1, key_local_port())->Some_0;
        lemma_sp_u16_le(s2);
        let s3 = (sp_u16(s2)->Some_0).1;
        lemma_tag_le(s3, seq![',']);
        let s4 = tag(s3, seq![','])->Some_0;
        lemma_tag_le(s4, key_remote_port());
        let s5 = tag(s4, key_remote_port())->Some_0;
        lemma_sp_u16_le(s5);
        let s6 = (sp_u16(s5)->Some_0).1;
        lemma_tag_le(s6, seq!['}']);
    }
}

/// The mappings after the first: a closing bracket ends the array, a comma
/// introduces one more mapping.
pub open spec fn sp_mappings_rest(s: Seq<char>, acc: Seq<PortMapping>) -> Option<
    (Seq<PortMapping>, Seq<char>),
>
    decreases s.len(),
{
    match tag(s, seq![']']) {
        Some(s1) => Some((acc, s1)),
        None => match tag(s, seq![',']) {
            None => None,
            Some(s1) => match sp_mapping(s1) {
                None => None,
                Some((m, s2)) => {
                    proof {
                        lemma_tag_le(s, seq![',']);
                        lemma_sp_mapping_le(s1);
                    }
                    sp_mappings_rest(s2, acc.push(m))
                },
            },
        },
    }
}

pub proof fn lemma_sp_mappings_rest_le(s: Seq<char>, acc: Seq<PortMapping>)
    ensures
        sp_mappings_rest(s, acc) is Some ==> (sp_mappings_rest(s, acc)->Some_0).1.len() <= s.len(),
    decreases s.len(),
{
    if sp_mappings_rest(s, acc) is Some {
        match tag(s, seq![']']) {
            Some(s1) => {
                lemma_tag_le(s, seq![']']);
            },
            None => {
                lemma_tag_le(s, seq![',']);
                let s1 = tag(s, seq![','])->Some_0;
                lemma_sp_mapping_le(s1);
                let s2 = (sp_mapping(s1)->Some_0).1;
                lemma_sp_mappings_rest_le(s2, acc.push(sp_mapping(s1)->Some_0.0));
            },
        }
    }
}

/// The full mappings array.
pub open spec fn sp_mappings(s: Seq<char>) -> Option<(Seq<PortMapping>, Seq<char>)> {
    match tag(s, seq!['[']) {
        None => None,
        Some(s1) => match tag(s1, seq![']']) {
            Some(s2) => Some((Seq::empty(), s2)),
            None => match sp_mapping(s1) {
                None => None,
                Some((m, s2)) => sp_mappings_rest(s2, seq![m]),
            },
        },
    }
}

pub proof fn lemma_sp_mappings_le(s: Seq<char>)
    ensures
        sp_mappings(s) is Some ==> (sp_mappings(s)->Some_0).1.len() <= s.len(),
{
    if sp_mappings(s) is Some {
        lemma_tag_le(s, seq!['[']);
        let s1 = tag(s, seq!['['])->Some_0;
        match tag(s1, seq![']']) {
            Some(_) => {
                lemma_tag_le(s1, seq![']']);
            },
            None => {
                lemma_sp_mapping_le(s1);
                let s2 = (sp_mapping(s1)->Some_0).1;
                lemma_sp_mappings_rest_le(s2, seq![sp_mapping(s1)->Some_0.0]);
            },
        }
    }
}

/// The optional port field: when the `port` key is present it carries a
/// number and a trailing comma; when absent the port defaults to 22.
pub open spec fn sp_opt_port(s: Seq<char>) -> Option<(u16, Seq<char>)> {
    match tag(s, key_port()) {
        Some(s1) => match sp_u16(s1) {
            None => None,
            Some((p, s2)) => match tag(s2, seq![',']) {
                None => None,
                Some(s3) => Some((p, s3)),
            },
        },
        None => Some((22u16, s)),
    }
}

pub proof fn lemma_sp_opt_port_le(s: Seq<char>)
    ensures
        sp_opt_port(s) is Some ==> (sp_opt_port(s)->Some_0).1.len() <= s.len(),
{
    match tag(s, key_port()) {
        Some(s1) => {
            lemma_tag_le(s, key_port());
            lemma_sp_u16_le(s1);
            if sp_u16(s1) is Some {
                let s2 = (sp_u16(s1)->Some_0).1;
                lemma_tag_le(s2, seq![',']);
            }
        },
        None => {},
    }
}

/// One connection object, fields in their fixed order. The `port` field is
/// optional and defaults to 22; the `port_mappings` field is optional and
/// defaults to the empty sequence.
pub open spec fn sp_conn(s: Seq<char>) -> Option<(ConnectionV, Seq<char>)> {
    match tag(s, seq!['{']) {
        None => None,
        Some(s1) => match tag(s1, key_slug()) {
            None => None,
            Some(s2) => match sp_string(s2) {
                None => None,
                Some((slug, s3)) => match tag(s3, seq![',']) {
                    None => None,
                    Some(s4) => match tag(s4, key_address()) {
                        None => None,
                        Some(s5) => match sp_string(s5) {
                            None => None,
                            Some((address, s6)) => match tag(s6, seq![',']) {
                                None => None,
                                Some(s7) => match sp_opt_port(s7) {
                                    None => None,
                                    Some((port, s8)) => match tag(s8, key_user()) {
                                        None => None,
                                        Some(s9) => match sp_string(s9) {
                                            None => None,
                                            Some((user, s10)) => match tag(s10, seq![',']) {
                                                None => None,
                                                Some(s11) => match tag(s11, key_ssh_key()) {
                                                    None => None,
                                                    Some(s12) => match sp_string(s12) {
                                                        None => None,
                                                        Some((ssh_key, s13)) => match tag(
                                                            s13,
                                                            seq!['}'],
                                                        ) {
                                                            Some(s14) => Some(
                                                                (
                                                                    ConnectionV {
                                                                        slug,
                                                                        address,
                                                                        port,
                                                                        user,
                                                                        ssh_key,
                                                                        port_mappings: Seq::empty(),
                                                                    },
                                                                    s14,
                                                                ),
                                                            ),
                                                            None => match tag(s13, seq![',']) {
                                                                None => None,
                                                                Some(s14) => match tag(
                                                                    s14,
                                                                    key_port_mappings(),
                                                                ) {
                                                                    None => None,
                                                                    Some(s15) => match sp_mappings(
                                                                        s15,
                                                                    ) {
                                                                        None => None,
                                                                        Some((ms, s16)) => match tag(
                                                                            s16,
                                                                            seq!['}'],
                                                                        ) {
                                                                            None => None,
                                                                            Some(s17) => Some(
                                                                                (
                                                                                    ConnectionV {
                                                                                        slug,
                                                                                        address,
                                                                                        port,
                                                                                        user,
                                                                                        ssh_key,
                                                                                        port_mappings:
                                                                                            ms,
                                                                                    },
                                                                                    s17,
                                                                                ),
                                                                            ),
                                                                        },
                                                                    },
                                                                },
                                                            },
                                                        },
                                                    },
                                                },
                                            },
                                        },
                                    },
                                },
                            },
                        },
                    },
                },
            },
        },
    }
}

pub proof fn lemma_sp_conn_le(s: Seq<char>)
    ensures
        sp_conn(s) is Some ==> (sp_conn(s)->Some_0).1.len() <= s.len(),
{
    if sp_conn(s) is Some {
        lemma_tag_le(s, seq!['{']);
        let s1 = tag(s, seq!['{'])->Some_0;
        lemma_tag_le(s1, key_slug());
        let s2 = tag(s1, key_slug())->Some_0;
        lemma_sp_string_le(s2);
        let s3 = (sp_string(s2)->Some_0).1;
        lemma_tag_le(s3, seq![',']);
        let s4 = tag(s3, seq![','])->Some_0;
        lemma_tag_le(s4, key_address());
        let s5 = tag(s4, key_address())->Some_0;
        lemma_sp_string_le(s5);
        let s6 = (sp_string(s5)->Some_0).1;
        lemma_tag_le(s6, seq![',']);
        let s7 = tag(s6, seq![','])->Some_0;
        lemma_sp_opt_port_le(s7);
        let s8 = (sp_opt_port(s7)->Some_0).1;
        lemma_tag_le(s8, key_user());
        let s9 = tag(s8, key_user())->Some_0;
        lemma_sp_string_le(s9);
        let s10 = (sp_string(s9)->Some_0).1;
        lemma_tag_le(s10, seq![',']);
        let s11 = tag(s10, seq![','])->Some_0;
        lemma_tag_le(s11, key_ssh_key());
        let s12 = tag(s11, key_ssh_key())->Some_0;
        lemma_sp_string_le(s12);
        let s13 = (sp_string(s12)->Some_0).1;
        match tag(s13, seq!['}']) {
            Some(_) => {
                lemma_tag_le(s13, seq!['}']);
            },
            None => {
                lemma_tag_le(s13, seq![',']);
                let s14 = tag(s13, seq![','])->Some_0;
                lemma_tag_le(s14, key_port_mappings());
                let s15 = tag(s14, key_port_mappings())->Some_0;
                lemma_sp_mappings_le(s15);
                let s16 = (sp_mappings(s15)->Some_0).1;
                lemma_tag_le(s16, seq!['}']);
            },
        }
    }
}

/// The connections after the first: a closing bracket ends the array, a
/// comma introduces one more connection.
pub open spec fn sp_conns_rest(s: Seq<char>, acc: Seq<ConnectionV>) -> Option<
    (Seq<ConnectionV>, Seq<char>),
>
    decreases s.len(),
{
    match tag(s, seq![']']) {
        Some(s1) => Some((acc, s1)),
        None => match tag(s, seq![',']) {
            None => None,
            Some(s1) => match sp_conn(s1) {
                None => None,
                Some((c, s2)) => {
                    proof {
                        lemma_tag_le(s, seq![',']);
                        lemma_sp_conn_le(s1);
                    }
                    sp_conns_rest(s2, acc.push(c))
                },
            },
        },
    }
}

/// The full connections array.
pub open spec fn sp_conns(s: Seq<char>) -> Option<(Seq<ConnectionV>, Seq<char>)> {
    match tag(s, seq!['[']) {
        None => None,
        Some(s1) => match tag(s1, seq![']']) {
            Some(s2) => Some((Seq::empty(), s2)),
            None => match sp_conn(s1) {
                None => None,
                Some((c, s2)) => sp_conns_rest(s2, seq![c]),
            },
        },
    }
}

/// The whole persisted document: one object with a `connections` array and
/// nothing but whitespace after it.
pub open spec fn sp_config(s: Seq<char>) -> Option<Seq<ConnectionV>> {
    match tag(s, seq!['{']) {
        None => None,
        Some(s1) => match tag(s1, key_connections()) {
            None => None,
            Some(s2) => match sp_conns(s2) {
                None => None,
                Some((cs, s3)) => match tag(s3, seq!['}']) {
                    None => None,
                    Some(s4) => if ws(s4).len() == 0 {
                        Some(cs)
                    } else {
                        None
                    },
                },
            },
        },
    }
}

/// The position after leading whitespace.
fn eat_ws(s: &Vec<char>, i: usize) -> (j: usize)
    requires
        i <= s@.len(),
    ensures
        i <= j <= s@.len(),
        s@.skip(j as int) == ws(s@.skip(i as int)),
    decreases s@.len() - i,
{
    if i < s.len() && is_ws_exec(s[i]) {
        proof {
            assert(s@.skip(i as int)[0] == s@[i as int]);
            assert(s@.skip(i as int).skip(1) =~= s@.skip(i as int + 1));
        }
        eat_ws(s, i + 1)
    } else {
        proof {
            if i < s.len() {
                assert(s@.skip(i as int)[0] == s@[i as int]);
            } else {
                assert(s@.skip(i as int).len() == 0);
            }
            lemma_ws_id(s@.skip(i as int));
        }
        i
    }
}

/// The position after whitespace and the single-character token `c`.
fn eat_token(s: &Vec<char>, i: usize, c: char) -> (r: Option<usize>)
    requires
        i <= s@.len(),
    ensures
        match r {
            Some(j) => i < j <= s@.len() && tag(s@.skip(i as int), seq![c]) == Some(
                s@.skip(j as int),
            ),
            None => tag(s@.skip(i as int), seq![c]) is None,
        },
{
    let j = eat_ws(s, i);
    let ghost s1 = ws(s@.skip(i as int));
    if j < s.len() && s[j] == c {
        proof {
            assert(s1 == s@.skip(j as int));
            assert(s1.take(1) =~= seq![c]);
            assert(s1.skip(1) =~= s@.skip(j as int + 1));
        }
        Some(j + 1)
    } else {
        proof {
            if j < s.len() {
                assert(s1[0] == s@[j as int]);
                if s1.take(1) == seq![c] {
                    assert(s1.take(1)[0] == c);
                }
            }
        }
        None
    }
}

/// The position after whitespace and the literal key `k`.
fn eat_key(s: &Vec<char>, i: usize, k: &str) -> (r: Option<usize>)
    requires
        i <= s@.len(),
    ensures
        match r {
            Some(j) => i <= j <= s@.len() && tag(s@.skip(i as int), k@) == Some(s@.skip(j as int)),
            None => tag(s@.skip(i as int), k@) is None,
        },
{
    let n = s.len();
    let j = eat_ws(s, i);
    let ghost s1 = ws(s@.skip(i as int));
    let klen = k.unicode_len();
    if n - j < klen {
        proof {
            assert(s1.len() == s@.len() - j);
        }
        return None;
    }
    let mut m: usize = 0;
    while m < klen
        invariant
            m <= klen,
            klen == k@.len(),
            i <= j <= s@.len(),
            n == s@.len(),
            n - j >= klen,
            s1 == s@.skip(j as int),
            s1 == ws(s@.skip(i as int)),
            forall|q: int| 0 <= q < m ==> s@[j + q] == k@[q],
        decreases klen - m,
    {
        if s[j + m] != k.get_char(m) {
            proof {
                assert(s1[m as int] == s@[j + m]);
                if s1.take(klen as int) == k@ {
                    assert(s1.take(klen as int)[m as int] == k@[m as int]);
                }
            }
            return None;
        }
        m += 1;
    }
    proof {
        assert(s1.take(klen as int) =~= k@);
        assert(s1.skip(klen as int) =~= s@.skip(j + klen));
    }
    Some(j + klen)
}

/// A digit run on top of `acc`.
fn eat_digits(s: &Vec<char>, i: usize, acc: u32) -> (r: Option<(u16, usize)>)
    requires
        i <= s@.len(),
        acc <= 0xffff,
    ensures
        match r {
            Some((p, j)) => i <= j <= s@.len() && sp_digits(s@.skip(i as int), acc as int) == Some(
                (p, s@.skip(j as int)),
            ),
            None => sp_digits(s@.skip(i as int), acc as int) is None,
        },
    decreases s@.len() - i,
{
    if i < s.len() && is_digit_exec(s[i]) {
        proof {
            assert(s@.skip(i as int)[0] == s@[i as int]);
            assert(s@.skip(i as int).skip(1) =~= s@.skip(i as int + 1));
        }
        let v = acc * 10 + digit_val_exec(s[i]);
        if v > 0xffff {
            None
        } else {
            eat_digits(s, i + 1, v)
        }
    } else {
        proof {
            if i < s.len() {
                assert(s@.skip(i as int)[0] == s@[i as int]);
            } else {
                assert(s@.skip(i as int).len() == 0);
            }
        }
        Some((acc as u16, i))
    }
}

/// A port number.
fn eat_u16(s: &Vec<char>, i: usize) -> (r: Option<(u16, usize)>)
    requires
        i <= s@.len(),
    ensures
        match r {
            Some((p, j)) => i <= j <= s@.len() && sp_u16(s@.skip(i as int)) == Some(
                (p, s@.skip(j as int)),
            ),
            None => sp_u16(s@.skip(i as int)) is None,
        },
{
    let j = eat_ws(s, i);
    let ghost s1 = ws(s@.skip(i as int));
    if j < s.len() && is_digit_exec(s[j]) {
        proof {
            assert(s1[0] == s@[j as int]);
        }
        if s[j] == '0' {
            if j + 1 < s.len() && is_digit_exec(s[j + 1]) {
                proof {
                    assert(s1[1] == s@[j + 1]);
                }
                None
            } else {
                proof {
                    if s1.len() > 1 {
                        assert(s1[1] == s@[j + 1]);
                    }
                    assert(s1.skip(1) =~= s@.skip(j as int + 1));
                }
                Some((0u16, j + 1))
            }
        } else {
            eat_digits(s, j, 0)
        }
    } else {
        proof {
            if j < s.len() {
                assert(s1[0] == s@[j as int]);
            }
        }
        None
    }
}

/// The body of a string value after its opening quote.
fn eat_str_rest(s: &Vec<char>, i: usize) -> (r: Option<(Vec<char>, usize)>)
    requires
        i <= s@.len(),
    ensures
        match r {
            Some((t, j)) => i <= j <= s@.len() && sp_str_rest(s@.skip(i as int)) == Some(
                (t@, s@.skip(j as int)),
            ),
            None => sp_str_rest(s@.skip(i as int)) is None,
        },
    decreases s@.len() - i,
{
    if i >= s.len() {
        proof {
            assert(s@.skip(i as int).len() == 0);
        }
        return None;
    }
    proof {
        assert(s@.skip(i as int)[0] == s@[i as int]);
    }
    let c = s[i];
    if c == '"' {
        proof {
            assert(s@.skip(i as int).skip(1) =~= s@.skip(i as int + 1));
        }
        let t: Vec<char> = Vec::new();
        proof {
            assert(t@ =~= Seq::<char>::empty());
        }
        Some((t, i + 1))
    } else if c == '\\' {
        if i + 1 >= s.len() {
            return None;
        }
        proof {
            assert(s@.skip(i as int)[1] == s@[i as int + 1]);
        }
        if s[i + 1] == 'u' {
            if s.len() - i < 6 {
                return None;
            }
            proof {
                assert(s@.skip(i as int)[2] == s@[i as int + 2]);
                assert(s@.skip(i as int)[3] == s@[i as int + 3]);
                assert(s@.skip(i as int)[4] == s@[i as int + 4]);
                assert(s@.skip(i as int)[5] == s@[i as int + 5]);
            }
            let h2 = match hexd_val_exec(s[i + 2]) {
                None => return None,
                Some(x) => x,
            };
            let h3 = match hexd_val_exec(s[i + 3]) {
                None => return None,
                Some(x) => x,
            };
            let h4 = match hexd_val_exec(s[i + 4]) {
                None => return None,
                Some(x) => x,
            };
            let h5 = match hexd_val_exec(s[i + 5]) {
                None => return None,
                Some(x) => x,
            };
            let v: u32 = ((h2 * 16 + h3) * 16 + h4) * 16 + h5;
            if v >= 0x20 {
                return None;
            }
            let u = ctrl_char_exec(v);
            proof {
                assert(s@.skip(i as int).skip(6) =~= s@.skip(i as int + 6));
            }
            match eat_str_rest(s, i + 6) {
                None => None,
                Some((mut t, j)) => {
                    let ghost t0 = t@;
                    t.insert(0, u);
                    proof {
                        assert(t@ =~= seq![u] + t0);
                    }
                    Some((t, j))
                },
            }
        } else {
            match unescape_char_exec(s[i + 1]) {
                None => None,
                Some(u) => {
                    proof {
                        assert(s@.skip(i as int).skip(2) =~= s@.skip(i as int + 2));
                    }
                    match eat_str_rest(s, i + 2) {
                        None => None,
                        Some((mut t, j)) => {
                            let ghost t0 = t@;
                            t.insert(0, u);
                            proof {
                                assert(t@ =~= seq![u] + t0);
                            }
                            Some((t, j))
                        },
                    }
                },
            }
        }
    } else {
        proof {
            assert(s@.skip(i as int).skip(1) =~= s@.skip(i as int + 1));
        }
        match eat_str_rest(s, i + 1) {
            None => None,
            Some((mut t, j)) => {
                let ghost t0 = t@;
                t.insert(0, c);
                proof {
                    assert(t@ =~= seq![c] + t0);
                }
                Some((t, j))
            },
        }
    }
}

/// A string value.
fn eat_string(s: &Vec<char>, i: usize) -> (r: Option<(String, usize)>)
    requires
        i <= s@.len(),
    ensures
        match r {
            Some((t, j)) => i <= j <= s@.len() && sp_string(s@.skip(i as int)) == Some(
                (t@, s@.skip(j as int)),
            ),
            None => sp_string(s@.skip(i as int)) is None,
        },
{
    let j = eat_ws(s, i);
    let ghost s1 = ws(s@.skip(i as int));
    if j < s.len() && s[j] == '"' {
        proof {
            assert(s1[0] == s@[j as int]);
            assert(s1.skip(1) =~= s@.skip(j as int + 1));
        }
        match eat_str_rest(s, j + 1) {
            None => None,
            Some((t, j2)) => Some((chars_to_string(&t), j2)),
        }
    } else {
        proof {
            if j < s.len() {
                assert(s1[0] == s@[j as int]);
            }
        }
        None
    }
}

/// One port mapping object.
fn eat_mapping(s: &Vec<char>, i: usize) -> (r: Option<(PortMapping, usize)>)
    requires
        i <= s@.len(),
    ensures
        match r {
            Some((m, j)) => i < j <= s@.len() && sp_mapping(s@.skip(i as int)) == Some(
                (m, s@.skip(j as int)),
            ),
            None => sp_mapping(s@.skip(i as int)) is None,
        },
{
    let j1 = match eat_token(s, i, '{') {
        None => return None,
        Some(j) => j,
    };
    let j2 = match eat_key(s, j1, "\"local_port\":") {
        None => return None,
        Some(j) => j,
    };
    let (lp, j3) = match eat_u16(s, j2) {
        None => return None,
        Some(x) => x,
    };
    let j4 = match eat_token(s, j3, ',') {
        None => return None,
        Some(j) => j,
    };
    let j5 = match eat_key(s, j4, "\"remote_port\":") {
        None => return None,
        Some(j) => j,
    };
    let (rp, j6) = match eat_u16(s, j5) {
        None => return None,
        Some(x) => x,
    };
    let j7 = match eat_token(s, j6, '}') {
        None => return None,
        Some(j) => j,
    };
    Some((PortMapping { local_port: lp, remote_port: rp }, j7))
}

/// The mappings after the first, on top of those already read.
fn eat_mappings_rest(s: &Vec<char>, i: usize, acc: Vec<PortMapping>) -> (r: Option<
    (Vec<PortMapping>, usize),
>)
    requires
        i <= s@.len(),
    ensures
        match r {
            Some((v, j)) => i <= j <= s@.len() && sp_mappings_rest(s@.skip(i as int), acc@) == Some(
                (v@, s@.skip(j as int)),
            ),
            None => sp_mappings_rest(s@.skip(i as int), acc@) is None,
        },
    decreases s@.len() - i,
{
    match eat_token(s, i, ']') {
        Some(j) => {
            return Some((acc, j));
        },
        None => {},
    }
    let j1 = match eat_token(s, i, ',') {
        None => return None,
        Some(j) => j,
    };
    let (m, j2) = match eat_mapping(s, j1) {
        None => return None,
        Some(x) => x,
    };
    let mut acc2 = acc;
    let ghost acc0 = acc2@;
    acc2.push(m);
    proof {
        assert(acc2@ =~= acc0.push(m));
    }
    eat_mappings_rest(s, j2, acc2)
}

/// The full mappings array.
fn eat_mappings(s: &Vec<char>, i: usize) -> (r: Option<(Vec<PortMapping>, usize)>)
    requires
        i <= s@.len(),
    ensures
        match r {
            Some((v, j)) => i <= j <= s@.len() && sp_mappings(s@.skip(i as int)) == Some(
                (v@, s@.skip(j as int)),
            ),
            None => sp_mappings(s@.skip(i as int)) is None,
        },
{
    let j1 = match eat_token(s, i, '[') {
        None => return None,
        Some(j) => j,
    };
    match eat_token(s, j1, ']') {
        Some(j2) => {
            let v: Vec<PortMapping> = Vec::new();
            proof {
                assert(v@ =~= Seq::<PortMapping>::empty());
            }
            return Some((v, j2));
        },
        None => {},
    }
    let (m, j2) = match eat_mapping(s, j1) {
        None => return None,
        Some(x) => x,
    };
    let mut acc: Vec<PortMapping> = Vec::new();
    acc.push(m);
    proof {
        assert(acc@ =~= seq![m]);
    }
    eat_mappings_rest(s, j2, acc)
}

/// One connection object.
#[verifier::rlimit(60)]
fn eat_conn(s: &Vec<char>, i: usize) -> (r: Option<(Connection, usize)>)
    requires
        i <= s@.len(),
    ensures
        match r {
            Some((c, j)) => i < j <= s@.len() && sp_conn(s@.skip(i as int)) == Some(
                (c@, s@.skip(j as int)),
            ),
            None => sp_conn(s@.skip(i as int)) is None,
        },
{
    let j1 = match eat_token(s, i, '{') {
        None => return None,
        Some(j) => j,
    };
    let j2 = match eat_key(s, j1, "\"slug\":") {
        None => return None,
        Some(j) => j,
    };
    let (slug, j3) = match eat_string(s, j2) {
        None => return None,
        Some(x) => x,
    };
    let j4 = match eat_token(s, j3, ',') {
        None => return None,
        Some(j) => j,
    };
    let j5 = match eat_key(s, j4, "\"address\":") {
        None => return None,
        Some(j) => j,
    };
    let (address, j6) = match eat_string(s, j5) {
        None => return None,
        Some(x) => x,
    };
    let j7 = match eat_token(s, j6, ',') {
        None => return None,
        Some(j) => j,
    };
    let (port, j8) = match eat_key(s, j7, "\"port\":") {
        Some(ja) => {
            let (p, jb) = match eat_u16(s, ja) {
                None => return None,
                Some(x) => x,
            };
            let jc = match eat_token(s, jb, ',') {
                None => return None,
                Some(j) => j,
            };
            (p, jc)
        },
        None => (22u16, j7),
    };
    let j9 = match eat_key(s, j8, "\"user\":") {
        None => return None,
        Some(j) => j,
    };
    let (user, j10) = match eat_string(s, j9) {
        None => return None,
        Some(x) => x,
    };
    let j11 = match eat_token(s, j10, ',') {
        None => return None,
        Some(j) => j,
    };
    let j12 = match eat_key(s, j11, "\"ssh_key\":") {
        None => return None,
        Some(j) => j,
    };
    let (ssh_key, j13) = match eat_string(s, j12) {
        None => return None,
        Some(x) => x,
    };
    match eat_token(s, j13, '}') {
        Some(j14) => {
            let c = Connection {
                slug,
                address,
                port,
                user,
                ssh_key,
                port_mappings: Vec::new(),
            };
            proof {
                assert(c@.port_mappings =~= Seq::<PortMapping>::empty());
                assert(sp_conn(s@.skip(i as int)) == Some((c@, s@.skip(j14 as int))));
            }
            return Some((c, j14));
        },
        None => {},
    }
    let j14 = match eat_token(s, j13, ',') {
        None => return None,
        Some(j) => j,
    };
    let j15 = match eat_key(s, j14, "\"port_mappings\":") {
        None => return None,
        Some(j) => j,
    };
    let (port_mappings, j16) = match eat_mappings(s, j15) {
        None => return None,
        Some(x) => x,
    };
    let j17 = match eat_token(s, j16, '}') {
        None => return None,
        Some(j) => j,
    };
    let c = Connection { slug, address, port, user, ssh_key, port_mappings };
    proof {
        assert(sp_conn(s@.skip(i as int)) == Some((c@, s@.skip(j17 as int))));
    }
    Some((c, j17))
}

/// The connections after the first, on top of those already read.
fn eat_conns_rest(s: &Vec<char>, i: usize, acc: Vec<Connection>) -> (r: Option<
    (Vec<Connection>, usize),
>)
    requires
        i <= s@.len(),
    ensures
        match r {
            Some((v, j)) => i <= j <= s@.len() && sp_conns_rest(s@.skip(i as int), conns_view(acc@))
                == Some((conns_view(v@), s@.skip(j as int))),
            None => sp_conns_rest(s@.skip(i as int), conns_view(acc@)) is None,
        },
    decreases s@.len() - i,
{
    match eat_token(s, i, ']') {
        Some(j) => {
            return Some((acc, j));
        },
        None => {},
    }
    let j1 = match eat_token(s, i, ',') {
        None => return None,
        Some(j) => j,
    };
    let (c, j2) = match eat_conn(s, j1) {
        None => return None,
        Some(x) => x,
    };
    let mut acc2 = acc;
    let ghost acc0 = conns_view(acc2@);
    let ghost cv = c@;
    acc2.push(c);
    proof {
        assert(conns_view(acc2@) =~= acc0.push(cv));
    }
    eat_conns_rest(s, j2, acc2)
}

/// The full connections array.
fn eat_conns(s: &Vec<char>, i: usize) -> (r: Option<(Vec<Connection>, usize)>)
    requires
        i <= s@.len(),
    ensures
        match r {
            Some((v, j)) => i <= j <= s@.len() && sp_conns(s@.skip(i as int)) == Some(
                (conns_view(v@), s@.skip(j as int)),
            ),
            None => sp_conns(s@.skip(i as int)) is None,
        },
{
    let j1 = match eat_token(s, i, '[') {
        None => return None,
        Some(j) => j,
    };
    match eat_token(s, j1, ']') {
        Some(j2) => {
            let v: Vec<Connection> = Vec::new();
            proof {
                assert(conns_view(v@) =~= Seq::<ConnectionV>::empty());
            }
            return Some((v, j2));
        },
        None => {},
    }
    let (c, j2) = match eat_conn(s, j1) {
        None => return None,
        Some(x) => x,
    };
    let ghost cv = c@;
    let mut acc: Vec<Connection> = Vec::new();
    acc.push(c);
    proof {
        assert(conns_view(acc@) =~= seq![cv]);
    }
    eat_conns_rest(s, j2, acc)
}

/// Deserializes the persisted document. Returns the registry exactly when
/// the text parses as the expected format; every other text fails with
/// `DataCorrupt`.
pub fn parse_registry(text: &str) -> (r: Result<Config, ErrorKind>)
    ensures
        match r {
            Ok(c) => sp_config(text@) == Some(c@),
            Err(e) => e == ErrorKind::DataCorrupt && sp_config(text@) is None,
        },
{
    let s = str_to_chars(text);
    proof {
        assert(s@.skip(0) =~= s@);
    }
    let j1 = match eat_token(&s, 0, '{') {
        None => return Err(ErrorKind::DataCorrupt),
        Some(j) => j,
    };
    let j2 = match eat_key(&s, j1, "\"connections\":") {
        None => return Err(ErrorKind::DataCorrupt),
        Some(j) => j,
    };
    let (conns, j3) = match eat_conns(&s, j2) {
        None => return Err(ErrorKind::DataCorrupt),
        Some(x) => x,
    };
    let j4 = match eat_token(&s, j3, '}') {
        None => return Err(ErrorKind::DataCorrupt),
        Some(j) => j,
    };
    let j5 = eat_ws(&s, j4);
    if j5 < s.len() {
        proof {
            assert(ws(s@.skip(j4 as int)).len() == s@.len() - j5);
        }
        return Err(ErrorKind::DataCorrupt);
    }
    let config = Config { connections: conns };
    proof {
        assert(ws(s@.skip(j4 as int)).len() == 0);
        assert(config@ == conns_view(conns@));
    }
    Ok(config)
}

} // verus!
