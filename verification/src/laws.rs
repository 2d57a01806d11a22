//! The codec's round-trip laws: the parser reads back exactly what the
//! renderer wrote, for every registry value. The lemmas here walk the
//! canonical document piece by piece.

use vstd::prelude::*;
use vstd::arithmetic::div_mod::lemma_div_denominator;
use crate::json::{
    esc_char, escape, key_address, key_connections, key_local_port, key_port, key_port_mappings,
    key_remote_port, key_slug, key_ssh_key, key_user, quoted, render_config, render_conn,
    render_conns, render_conns_rest, render_mapping, render_mappings, render_mappings_rest,
    render_port_field,
};
use crate::parse::{
    lemma_ws_id, sp_config, sp_conn, sp_conns, sp_conns_rest, sp_digits, sp_mapping, sp_mappings,
    sp_mappings_rest, sp_opt_port, sp_str_rest, sp_string, sp_u16, tag, unescape_char, ws,
};
use crate::registry::{ConnectionV, PortMapping};
use crate::text::{
    ctrl_code, dc, hexd, hexd_val, is_digit, is_ws, lemma_ctrl_char_code, lemma_dc, lemma_hexd,
    render_u16,
};

verus! {

/// A token at the head of the input is consumed exactly.
pub proof fn lemma_tag_exact(t: Seq<char>, rest: Seq<char>)
    requires
        t.len() > 0,
        !is_ws(t[0]),
    ensures
        tag(t + rest, t) == Some(rest),
{
    let s = t + rest;
    assert(s[0] == t[0]);
    lemma_ws_id(s);
    assert(s.take(t.len() as int) =~= t);
    assert(s.skip(t.len() as int) =~= rest);
}

/// A rendered port number at the head of the input parses back to the
/// same number, as long as no digit follows it.
pub proof fn lemma_sp_u16_render(n: u16, rest: Seq<char>)
    requires
        rest.len() > 0,
        !is_digit(rest[0]),
    ensures
        sp_u16(render_u16(n) + rest) == Some((n, rest)),
{
    let v = n as int;
    let s = render_u16(n) + rest;
    if v < 10 {
        lemma_dc(v);
        assert(s =~= seq![dc(v)] + rest);
        assert(s[0] == dc(v));
        lemma_ws_id(s);
        assert(s.skip(1) =~= rest);
        if v == 0 {
            assert(s[1] == rest[0]);
        } else {
            assert(sp_digits(s, 0) == sp_digits(rest, v));
        }
    } else if v < 100 {
        let a = v / 10;
        let b = v % 10;
        lemma_dc(a);
        lemma_dc(b);
        assert(s =~= seq![dc(a), dc(b)] + rest);
        assert(s[0] == dc(a) && s[1] == dc(b));
        lemma_ws_id(s);
        let s1 = s.skip(1);
        assert(s1 =~= seq![dc(b)] + rest);
        assert(s1[0] == dc(b));
        let s2 = s1.skip(1);
        assert(s2 =~= rest);
        assert(sp_digits(s, 0) == sp_digits(s1, a));
        assert(a * 10 + b == v);
        assert(sp_digits(s1, a) == sp_digits(s2, v));
        assert(sp_digits(s2, v) == Some((n, rest)));
    } else if v < 1000 {
        let a = v / 100;
        let b = (v / 10) % 10;
        let c = v % 10;
        lemma_dc(a);
        lemma_dc(b);
        lemma_dc(c);
        assert(s =~= seq![dc(a), dc(b), dc(c)] + rest);
        lemma_ws_id(s);
        let s1 = s.skip(1);
        let s2 = s1.skip(1);
        let s3 = s2.skip(1);
        assert(s1 =~= seq![dc(b), dc(c)] + rest);
        assert(s2 =~= seq![dc(c)] + rest);
        assert(s3 =~= rest);
        lemma_div_denominator(v, 10, 10);
        assert(a == (v / 10) / 10);
        assert(a * 10 + b == v / 10);
        assert((v / 10) * 10 + c == v);
        assert(sp_digits(s, 0) == sp_digits(s1, a));
        assert(sp_digits(s1, a) == sp_digits(s2, v / 10));
        assert(sp_digits(s2, v / 10) == sp_digits(s3, v));
        assert(sp_digits(s3, v) == Some((n, rest)));
    } else if v < 10000 {
        let a = v / 1000;
        let b = (v / 100) % 10;
        let c = (v / 10) % 10;
        let d = v % 10;
        lemma_dc(a);
        lemma_dc(b);
        lemma_dc(c);
        lemma_dc(d);
        assert(s =~= seq![dc(a), dc(b), dc(c), dc(d)] + rest);
        lemma_ws_id(s);
        let s1 = s.skip(1);
        let s2 = s1.skip(1);
        let s3 = s2.skip(1);
        let s4 = s3.skip(1);
        assert(s1 =~= seq![dc(b), dc(c), dc(d)] + rest);
        assert(s2 =~= seq![dc(c), dc(d)] + rest);
        assert(s3 =~= seq![dc(d)] + rest);
        assert(s4 =~= rest);
        lemma_div_denominator(v, 100, 10);
        assert(a == (v / 100) / 10);
        assert(a * 10 + b == v / 100);
        lemma_div_denominator(v, 10, 10);
        assert((v / 100) * 10 + c == v / 10);
        assert((v / 10) * 10 + d == v);
        assert(sp_digits(s, 0) == sp_digits(s1, a));
        assert(sp_digits(s1, a) == sp_digits(s2, v / 100));
        assert(sp_digits(s2, v / 100) == sp_digits(s3, v / 10));
        assert(sp_digits(s3, v / 10) == sp_digits(s4, v));
        assert(sp_digits(s4, v) == Some((n, rest)));
    } else {
        let a = v / 10000;
        let b = (v / 1000) % 10;
        let c = (v / 100) % 10;
        let d = (v / 10) % 10;
        let e = v % 10;
        lemma_dc(a);
        lemma_dc(b);
        lemma_dc(c);
        lemma_dc(d);
        lemma_dc(e);
        assert(s =~= seq![dc(a), dc(b), dc(c), dc(d), dc(e)] + rest);
        lemma_ws_id(s);
        let s1 = s.skip(1);
        let s2 = s1.skip(1);
        let s3 = s2.skip(1);
        let s4 = s3.skip(1);
        let s5 = s4.skip(1);
        assert(s1 =~= seq![dc(b), dc(c), dc(d), dc(e)] + rest);
        assert(s2 =~= seq![dc(c), dc(d), dc(e)] + rest);
        assert(s3 =~= seq![dc(d), dc(e)] + rest);
        assert(s4 =~= seq![dc(e)] + rest);
        assert(s5 =~= rest);
        lemma_div_denominator(v, 1000, 10);
        assert(a == (v / 1000) / 10);
        assert(a * 10 + b == v / 1000);
        lemma_div_denominator(v, 100, 10);
        assert((v / 1000) * 10 + c == v / 100);
        lemma_div_denominator(v, 10, 10);
        assert((v / 100) * 10 + d == v / 10);
        assert((v / 10) * 10 + e == v);
        assert(sp_digits(s, 0) == sp_digits(s1, a));
        assert(sp_digits(s1, a) == sp_digits(s2, v / 1000));
        assert(sp_digits(s2, v / 1000) == sp_digits(s3, v / 100));
        assert(sp_digits(s3, v / 100) == sp_digits(s4, v / 10));
        assert(sp_digits(s4, v / 10) == sp_digits(s5, v));
        assert(sp_digits(s5, v) == Some((n, rest)));
    }
}

/// An escaped string body followed by its closing quote parses back to the
/// original characters.
pub proof fn lemma_sp_str_rest_escape(t: Seq<char>, rest: Seq<char>)
    ensures
        sp_str_rest(escape(t) + seq!['"'] + rest) == Some((t, rest)),
    decreases t.len(),
{
    let s = escape(t) + seq!['"'] + rest;
    if t.len() == 0 {
        assert(s =~= seq!['"'] + rest);
        assert(s[0] == '"');
        assert(s.skip(1) =~= rest);
        assert(t =~= Seq::<char>::empty());
    } else {
        let u = t.skip(1);
        let inner = escape(u) + seq!['"'] + rest;
        assert(escape(t) == esc_char(t[0]) + escape(u));
        lemma_sp_str_rest_escape(u, rest);
        if t[0] == '"' {
            assert(s =~= seq!['\\', '"'] + inner);
            assert(s[0] == '\\' && s[1] == '"');
            assert(s.skip(2) =~= inner);
            assert(unescape_char('"') == Some('"'));
            assert(seq![t[0]] + u =~= t);
        } else if t[0] == '\\' {
            assert(s =~= seq!['\\', '\\'] + inner);
            assert(s[0] == '\\' && s[1] == '\\');
            assert(s.skip(2) =~= inner);
            assert(unescape_char('\\') == Some('\\'));
            assert(seq![t[0]] + u =~= t);
        } else if ctrl_code(t[0]) >= 0 {
            let q = ctrl_code(t[0]);
            lemma_ctrl_char_code(t[0]);
            lemma_hexd(q / 16);
            lemma_hexd(q % 16);
            assert(s =~= seq!['\\', 'u', '0', '0', hexd(q / 16), hexd(q % 16)] + inner);
            assert(s[0] == '\\' && s[1] == 'u');
            assert(s[2] == '0' && s[3] == '0');
            assert(s[4] == hexd(q / 16) && s[5] == hexd(q % 16));
            assert(hexd_val('0') == 0);
            assert(s.skip(6) =~= inner);
            assert(((hexd_val(s[2]) * 16 + hexd_val(s[3])) * 16 + hexd_val(s[4])) * 16 + hexd_val(
                s[5],
            ) == q);
            assert(seq![t[0]] + u =~= t);
        } else {
            assert(s =~= seq![t[0]] + inner);
            assert(s[0] == t[0]);
            assert(s.skip(1) =~= inner);
            assert(seq![t[0]] + u =~= t);
        }
    }
}

/// A quoted string value parses back to the original characters.
pub proof fn lemma_sp_string_quoted(t: Seq<char>, rest: Seq<char>)
    ensures
        sp_string(quoted(t) + rest) == Some((t, rest)),
{
    let s = quoted(t) + rest;
    assert(s[0] == '"');
    lemma_ws_id(s);
    assert(s.skip(1) =~= escape(t) + seq!['"'] + rest);
    lemma_sp_str_rest_escape(t, rest);
}

/// A rendered mapping object parses back to the same mapping.
pub proof fn lemma_sp_mapping_render(m: PortMapping, rest: Seq<char>)
    ensures
        sp_mapping(render_mapping(m) + rest) == Some((m, rest)),
{
    reveal_strlit("\"local_port\":");
    reveal_strlit("\"remote_port\":");
    let t0 = seq!['}'] + rest;
    let t1 = render_u16(m.remote_port) + t0;
    let t2 = key_remote_port() + t1;
    let t3 = seq![','] + t2;
    let t4 = render_u16(m.local_port) + t3;
    let t5 = key_local_port() + t4;
    let s = render_mapping(m) + rest;
    assert(s =~= seq!['{'] + t5);
    lemma_tag_exact(seq!['{'], t5);
    lemma_tag_exact(key_local_port(), t4);
    assert(t3[0] == ',');
    lemma_sp_u16_render(m.local_port, t3);
    lemma_tag_exact(seq![','], t2);
    lemma_tag_exact(key_remote_port(), t1);
    assert(t0[0] == '}');
    lemma_sp_u16_render(m.remote_port, t0);
    lemma_tag_exact(seq!['}'], rest);
    assert(PortMapping { local_port: m.local_port, remote_port: m.remote_port } == m);
}

/// The mappings after the first parse back onto what was already read.
pub proof fn lemma_sp_mappings_rest_render(
    ms: Seq<PortMapping>,
    acc: Seq<PortMapping>,
    rest: Seq<char>,
)
    ensures
        sp_mappings_rest(render_mappings_rest(ms) + seq![']'] + rest, acc) == Some(
            (acc + ms, rest),
        ),
    decreases ms.len(),
{
    let s = render_mappings_rest(ms) + seq![']'] + rest;
    if ms.len() == 0 {
        assert(s =~= seq![']'] + rest);
        lemma_tag_exact(seq![']'], rest);
        assert(acc + ms =~= acc);
    } else {
        let m0 = ms[0];
        let tailr = render_mappings_rest(ms.skip(1)) + seq![']'] + rest;
        let r1 = render_mapping(m0) + tailr;
        assert(s =~= seq![','] + r1);
        assert(s[0] == ',');
        lemma_ws_id(s);
        if tag(s, seq![']']) is Some {
            assert(s.take(1)[0] == ']');
            assert(false);
        }
        lemma_tag_exact(seq![','], r1);
        lemma_sp_mapping_render(m0, tailr);
        lemma_sp_mappings_rest_render(ms.skip(1), acc.push(m0), rest);
        assert(acc.push(m0) + ms.skip(1) =~= acc + ms);
    }
}

/// A rendered mappings array parses back to the same sequence.
pub proof fn lemma_sp_mappings_render(ms: Seq<PortMapping>, rest: Seq<char>)
    ensures
        sp_mappings(render_mappings(ms) + rest) == Some((ms, rest)),
{
    let s = render_mappings(ms) + rest;
    if ms.len() == 0 {
        let r1 = seq![']'] + rest;
        assert(s =~= seq!['['] + r1);
        lemma_tag_exact(seq!['['], r1);
        lemma_tag_exact(seq![']'], rest);
        assert(Seq::<PortMapping>::empty() =~= ms);
    } else {
        let tailr = render_mappings_rest(ms.skip(1)) + seq![']'] + rest;
        let r1 = render_mapping(ms[0]) + tailr;
        assert(s =~= seq!['['] + r1);
        lemma_tag_exact(seq!['['], r1);
        assert(r1[0] == '{');
        lemma_ws_id(r1);
        if tag(r1, seq![']']) is Some {
            assert(r1.take(1)[0] == ']');
            assert(false);
        }
        lemma_sp_mapping_render(ms[0], tailr);
        lemma_sp_mappings_rest_render(ms.skip(1), seq![ms[0]], rest);
        assert(seq![ms[0]] + ms.skip(1) =~= ms);
    }
}

/// The optional port field parses back to the stored port: an elided field
/// yields 22, a written field yields its number.
pub proof fn lemma_sp_opt_port_render(p: u16, rest: Seq<char>)
    ensures
        sp_opt_port(render_port_field(p) + (key_user() + rest)) == Some((p, key_user() + rest)),
{
    reveal_strlit("\"port\":");
    reveal_strlit("\"user\":");
    let tail = key_user() + rest;
    let s = render_port_field(p) + tail;
    if p == 22 {
        assert(s =~= tail);
        assert(s[0] == '"');
        lemma_ws_id(s);
        if tag(s, key_port()) is Some {
            assert(s.take(key_port().len() as int)[1] == key_port()[1]);
            assert(s[1] == key_user()[1]);
            assert(false);
        }
    } else {
        let r2 = seq![','] + tail;
        let r1 = render_u16(p) + r2;
        assert(s =~= key_port() + r1);
        lemma_tag_exact(key_port(), r1);
        assert(r2[0] == ',');
        lemma_sp_u16_render(p, r2);
        lemma_tag_exact(seq![','], tail);
    }
}

/// A rendered connection object parses back to the same connection.
#[verifier::rlimit(60)]
pub proof fn lemma_sp_conn_render(c: ConnectionV, rest: Seq<char>)
    ensures
        sp_conn(render_conn(c) + rest) == Some((c, rest)),
{
    reveal_strlit("\"slug\":");
    reveal_strlit("\"address\":");
    reveal_strlit("\"user\":");
    reveal_strlit("\"ssh_key\":");
    reveal_strlit("\"port_mappings\":");
    let t0 = seq!['}'] + rest;
    let t1 = render_mappings(c.port_mappings) + t0;
    let t2 = key_port_mappings() + t1;
    let t3 = seq![','] + t2;
    let t4 = quoted(c.ssh_key) + t3;
    let t5 = key_ssh_key() + t4;
    let t6 = seq![','] + t5;
    let t7 = quoted(c.user) + t6;
    let t8 = key_user() + t7;
    let t8b = render_port_field(c.port) + t8;
    let t9 = seq![','] + t8b;
    let t10 = quoted(c.address) + t9;
    let t11 = key_address() + t10;
    let t12 = seq![','] + t11;
    let t13 = quoted(c.slug) + t12;
    let t14 = key_slug() + t13;
    let s = render_conn(c) + rest;
    assert(s =~= seq!['{'] + t14);
    lemma_tag_exact(seq!['{'], t14);
    lemma_tag_exact(key_slug(), t13);
    lemma_sp_string_quoted(c.slug, t12);
    lemma_tag_exact(seq![','], t11);
    lemma_tag_exact(key_address(), t10);
    lemma_sp_string_quoted(c.address, t9);
    lemma_tag_exact(seq![','], t8b);
    assert(t8b == render_port_field(c.port) + (key_user() + t7));
    lemma_sp_opt_port_render(c.port, t7);
    lemma_tag_exact(key_user(), t7);
    lemma_sp_string_quoted(c.user, t6);
    lemma_tag_exact(seq![','], t5);
    lemma_tag_exact(key_ssh_key(), t4);
    lemma_sp_string_quoted(c.ssh_key, t3);
    assert(t3[0] == ',');
    lemma_ws_id(t3);
    if tag(t3, seq!['}']) is Some {
        assert(t3.take(1)[0] == '}');
        assert(false);
    }
    lemma_tag_exact(seq![','], t2);
    lemma_tag_exact(key_port_mappings(), t1);
    lemma_sp_mappings_render(c.port_mappings, t0);
    lemma_tag_exact(seq!['}'], rest);
    assert((ConnectionV {
        slug: c.slug,
        address: c.address,
        port: c.port,
        user: c.user,
        ssh_key: c.ssh_key,
        port_mappings: c.port_mappings,
    }) =~= c);
}

/// The connections after the first parse back onto what was already read.
#[verifier::rlimit(100)]
pub proof fn lemma_sp_conns_rest_render(
    cs: Seq<ConnectionV>,
    acc: Seq<ConnectionV>,
    rest: Seq<char>,
)
    ensures
        sp_conns_rest(render_conns_rest(cs) + seq![']'] + rest, acc) == Some((acc + cs, rest)),
    decreases cs.len(),
{
    let s = render_conns_rest(cs) + seq![']'] + rest;
    if cs.len() == 0 {
        assert(s =~= seq![']'] + rest);
        lemma_tag_exact(seq![']'], rest);
        assert(acc + cs =~= acc);
    } else {
        let c0 = cs[0];
        let tailr = render_conns_rest(cs.skip(1)) + seq![']'] + rest;
        let r1 = render_conn(c0) + tailr;
        assert(s =~= seq![','] + r1);
        assert(s[0] == ',');
        lemma_ws_id(s);
        if tag(s, seq![']']) is Some {
            assert(s.take(1)[0] == ']');
            assert(false);
        }
        lemma_tag_exact(seq![','], r1);
        lemma_sp_conn_render(c0, tailr);
        lemma_sp_conns_rest_render(cs.skip(1), acc.push(c0), rest);
        assert(acc.push(c0) + cs.skip(1) =~= acc + cs);
    }
}

/// A rendered connections array parses back to the same sequence.
#[verifier::rlimit(100)]
pub proof fn lemma_sp_conns_render(cs: Seq<ConnectionV>, rest: Seq<char>)
    ensures
        sp_conns(render_conns(cs) + rest) == Some((cs, rest)),
{
    let s = render_conns(cs) + rest;
    if cs.len() == 0 {
        let r1 = seq![']'] + rest;
        assert(s =~= seq!['['] + r1);
        lemma_tag_exact(seq!['['], r1);
        lemma_tag_exact(seq![']'], rest);
        assert(Seq::<ConnectionV>::empty() =~= cs);
    } else {
        let tailr = render_conns_rest(cs.skip(1)) + seq![']'] + rest;
        let r1 = render_conn(cs[0]) + tailr;
        assert(s =~= seq!['['] + r1);
        lemma_tag_exact(seq!['['], r1);
        assert(r1[0] == '{');
        lemma_ws_id(r1);
        if tag(r1, seq![']']) is Some {
            assert(r1.take(1)[0] == ']');
            assert(false);
        }
        lemma_sp_conn_render(cs[0], tailr);
        lemma_sp_conns_rest_render(cs.skip(1), seq![cs[0]], rest);
        assert(seq![cs[0]] + cs.skip(1) =~= cs);
    }
}

/// Law: for every registry value, serializing and then parsing reproduces
/// an equal registry. A port of exactly 22 is elided when written and
/// restored as 22 when read, so equality is exact even for that field.
pub proof fn lemma_load_after_save(cs: Seq<ConnectionV>)
    ensures
        sp_config(render_config(cs)) == Some(cs),
{
    reveal_strlit("\"connections\":");
    let empty = Seq::<char>::empty();
    let t0 = seq!['}'];
    let t1 = render_conns(cs) + t0;
    let t2 = key_connections() + t1;
    let s = render_config(cs);
    assert(s =~= seq!['{'] + t2);
    lemma_tag_exact(seq!['{'], t2);
    lemma_tag_exact(key_connections(), t1);
    lemma_sp_conns_render(cs, t0);
    assert(t0 =~= seq!['}'] + empty);
    lemma_tag_exact(seq!['}'], empty);
    lemma_ws_id(empty);
}

/// Law: a document that some registry value renders to parses, and
/// serializing what was parsed writes the same document back unchanged.
pub proof fn lemma_save_after_load(s: Seq<char>, cs: Seq<ConnectionV>)
    requires
        s == render_config(cs),
    ensures
        sp_config(s) is Some,
        render_config(sp_config(s)->Some_0) == s,
{
    lemma_load_after_save(cs);
}

} // verus!
