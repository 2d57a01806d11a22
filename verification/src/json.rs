//! The persisted form of the registry: one JSON document with a single
//! `connections` array. This module defines, character by character, the
//! exact text the store writes, and the verified renderer that produces it.
//! A `port` equal to 22 is elided on save; `port_mappings` is always written.

use vstd::prelude::*;
use crate::registry::{Config, Connection, ConnectionV, PortMapping, conns_view};
use crate::text::{append_u16, ctrl_code, ctrl_code_exec, hexd, hexd_exec, push_char, render_u16};

verus! {

pub open spec fn key_connections() -> Seq<char> {
    "\"connections\":"@
}

pub open spec fn key_slug() -> Seq<char> {
    "\"slug\":"@
}

pub open spec fn key_address() -> Seq<char> {
    "\"address\":"@
}

pub open spec fn key_port() -> Seq<char> {
    "\"port\":"@
}

pub open spec fn key_user() -> Seq<char> {
    "\"user\":"@
}

pub open spec fn key_ssh_key() -> Seq<char> {
    "\"ssh_key\":"@
}

pub open spec fn key_port_mappings() -> Seq<char> {
    "\"port_mappings\":"@
}

pub open spec fn key_local_port() -> Seq<char> {
    "\"local_port\":"@
}

pub open spec fn key_remote_port() -> Seq<char> {
    "\"remote_port\":"@
}

/// How one character is written inside a JSON string: quotes and
/// backslashes take a backslash escape, control characters take a
/// `\u00..` escape as JSON requires, all else is written as itself.
pub open spec fn esc_char(c: char) -> Seq<char> {
    if c == '"' {
        seq!['\\', '"']
    } else if c == '\\' {
        seq!['\\', '\\']
    } else if ctrl_code(c) >= 0 {
        seq!['\\', 'u', '0', '0', hexd(ctrl_code(c) / 16), hexd(ctrl_code(c) % 16)]
    } else {
        seq![c]
    }
}

/// A string's characters in escaped form.
pub open spec fn escape(t: Seq<char>) -> Seq<char>
    decreases t.len(),
{
    if t.len() == 0 {
        Seq::empty()
    } else {
        esc_char(t[0]) + escape(t.skip(1))
    }
}

/// A JSON string value: escaped characters between double quotes.
pub open spec fn quoted(t: Seq<char>) -> Seq<char> {
    seq!['"'] + escape(t) + seq!['"']
}

/// One port mapping object.
pub open spec fn render_mapping(m: PortMapping) -> Seq<char> {
    seq!['{'] + key_local_port() + render_u16(m.local_port) + seq![','] + key_remote_port()
        + render_u16(m.remote_port) + seq!['}']
}

/// The mappings after the first, each preceded by a comma.
pub open spec fn render_mappings_rest(ms: Seq<PortMapping>) -> Seq<char>
    decreases ms.len(),
{
    if ms.len() == 0 {
        Seq::empty()
    } else {
        seq![','] + render_mapping(ms[0]) + render_mappings_rest(ms.skip(1))
    }
}

/// The full mappings array.
pub open spec fn render_mappings(ms: Seq<PortMapping>) -> Seq<char> {
    if ms.len() == 0 {
        seq!['[', ']']
    } else {
        seq!['['] + render_mapping(ms[0]) + render_mappings_rest(ms.skip(1)) + seq![']']
    }
}

/// The port field, elided exactly when the port is 22.
pub open spec fn render_port_field(p: u16) -> Seq<char> {
    if p == 22 {
        Seq::empty()
    } else {
        key_port() + render_u16(p) + seq![',']
    }
}

/// One connection object, fields in their fixed order.
pub open spec fn render_conn(c: ConnectionV) -> Seq<char> {
    seq!['{'] + key_slug() + quoted(c.slug) + seq![','] + key_address() + quoted(c.address)
        + seq![','] + render_port_field(c.port) + key_user() + quoted(c.user) + seq![',']
        + key_ssh_key() + quoted(c.ssh_key) + seq![','] + key_port_mappings() + render_mappings(
        c.port_mappings,
    ) + seq!['}']
}

/// The connections after the first, each preceded by a comma.
pub open spec fn render_conns_rest(cs: Seq<ConnectionV>) -> Seq<char>
    decreases cs.len(),
{
    if cs.len() == 0 {
        Seq::empty()
    } else {
        seq![','] + render_conn(cs[0]) + render_conns_rest(cs.skip(1))
    }
}

/// The full connections array.
pub open spec fn render_conns(cs: Seq<ConnectionV>) -> Seq<char> {
    if cs.len() == 0 {
        seq!['[', ']']
    } else {
        seq!['['] + render_conn(cs[0]) + render_conns_rest(cs.skip(1)) + seq![']']
    }
}

/// The whole persisted document.
pub open spec fn render_config(cs: Seq<ConnectionV>) -> Seq<char> {
    seq!['{'] + key_connections() + render_conns(cs) + seq!['}']
}

pub proof fn lemma_escape_snoc(t: Seq<char>)
    requires
        t.len() > 0,
    ensures
        escape(t) == escape(t.drop_last()) + esc_char(t.last()),
    decreases t.len(),
{
    if t.len() == 1 {
        assert(t.drop_last() =~= Seq::<char>::empty());
        assert(t.skip(1) =~= Seq::<char>::empty());
        assert(escape(t) =~= escape(t.drop_last()) + esc_char(t.last()));
    } else {
        let u = t.skip(1);
        lemma_escape_snoc(u);
        assert(u.drop_last() =~= t.drop_last().skip(1));
        assert(u.last() == t.last());
        assert(t.drop_last()[0] == t[0]);
        assert(escape(t.drop_last()) == esc_char(t[0]) + escape(t.drop_last().skip(1)));
        assert(escape(t) =~= escape(t.drop_last()) + esc_char(t.last()));
    }
}

/// Writes the escaped characters of `s` onto `out`.
fn append_escaped(out: &mut String, s: &str)
    ensures
        final(out)@ == old(out)@ + escape(s@),
{
    let len = s.unicode_len();
    let mut i: usize = 0;
    proof {
        assert(s@.take(0) =~= Seq::<char>::empty());
        assert(out@ =~= out@ + escape(s@.take(0)));
    }
    while i < len
        invariant
            i <= len,
            len == s@.len(),
            out@ == old(out)@ + escape(s@.take(i as int)),
        decreases len - i,
    {
        let c = s.get_char(i);
        let ghost before = out@;
        if c == '"' {
            push_char(out, '\\');
            push_char(out, '"');
        } else if c == '\\' {
            push_char(out, '\\');
            push_char(out, '\\');
        } else {
            match ctrl_code_exec(c) {
                Some(q) => {
                    push_char(out, '\\');
                    push_char(out, 'u');
                    push_char(out, '0');
                    push_char(out, '0');
                    push_char(out, hexd_exec(q / 16));
                    push_char(out, hexd_exec(q % 16));
                },
                None => {
                    push_char(out, c);
                },
            }
        }
        proof {
            assert(out@ =~= before + esc_char(c));
            let pre = s@.take(i + 1);
            assert(pre.drop_last() =~= s@.take(i as int));
            assert(pre.last() == s@[i as int]);
            lemma_escape_snoc(pre);
            assert(out@ =~= old(out)@ + escape(pre));
        }
        i += 1;
    }
    proof {
        assert(s@.take(len as int) =~= s@);
    }
}

/// Writes a JSON string value onto `out`.
fn append_quoted(out: &mut String, s: &str)
    ensures
        final(out)@ == old(out)@ + quoted(s@),
{
    push_char(out, '"');
    append_escaped(out, s);
    push_char(out, '"');
    proof {
        assert(out@ =~= old(out)@ + quoted(s@));
    }
}

/// Writes one mapping object onto `out`.
fn append_mapping(out: &mut String, m: &PortMapping)
    ensures
        final(out)@ == old(out)@ + render_mapping(*m),
{
    push_char(out, '{');
    out.append("\"local_port\":");
    append_u16(out, m.local_port);
    push_char(out, ',');
    out.append("\"remote_port\":");
    append_u16(out, m.remote_port);
    push_char(out, '}');
    proof {
        assert(out@ =~= old(out)@ + render_mapping(*m));
    }
}

/// Writes the mappings from position `i` on, each preceded by a comma.
fn append_mappings_rest(out: &mut String, ms: &Vec<PortMapping>, i: usize)
    requires
        i <= ms@.len(),
    ensures
        final(out)@ == old(out)@ + render_mappings_rest(ms@.skip(i as int)),
    decreases ms@.len() - i,
{
    if i < ms.len() {
        push_char(out, ',');
        let m = ms[i];
        append_mapping(out, &m);
        append_mappings_rest(out, ms, i + 1);
        proof {
            let t = ms@.skip(i as int);
            assert(t[0] == ms@[i as int]);
            assert(t.skip(1) =~= ms@.skip(i as int + 1));
            assert(out@ =~= old(out)@ + render_mappings_rest(t));
        }
    } else {
        proof {
            assert(ms@.skip(i as int).len() == 0);
            assert(out@ =~= old(out)@ + render_mappings_rest(ms@.skip(i as int)));
        }
    }
}

/// Writes the full mappings array onto `out`.
fn append_mappings(out: &mut String, ms: &Vec<PortMapping>)
    ensures
        final(out)@ == old(out)@ + render_mappings(ms@),
{
    push_char(out, '[');
    if ms.len() == 0 {
        push_char(out, ']');
        proof {
            assert(out@ =~= old(out)@ + render_mappings(ms@));
        }
    } else {
        let m = ms[0];
        append_mapping(out, &m);
        append_mappings_rest(out, ms, 1);
        push_char(out, ']');
        proof {
            assert(out@ =~= old(out)@ + render_mappings(ms@));
        }
    }
}

/// Writes one connection object onto `out`.
#[verifier::rlimit(60)]
fn append_conn(out: &mut String, c: &Connection)
    ensures
        final(out)@ == old(out)@ + render_conn(c@),
{
    push_char(out, '{');
    out.append("\"slug\":");
    append_quoted(out, c.slug.as_str());
    push_char(out, ',');
    out.append("\"address\":");
    append_quoted(out, c.address.as_str());
    push_char(out, ',');
    if c.port != 22 {
        out.append("\"port\":");
        append_u16(out, c.port);
        push_char(out, ',');
    }
    out.append("\"user\":");
    append_quoted(out, c.user.as_str());
    push_char(out, ',');
    out.append("\"ssh_key\":");
    append_quoted(out, c.ssh_key.as_str());
    push_char(out, ',');
    out.append("\"port_mappings\":");
    append_mappings(out, &c.port_mappings);
    push_char(out, '}');
    proof {
        assert(out@ =~= old(out)@ + render_conn(c@));
    }
}

/// Writes the connections from position `i` on, each preceded by a comma.
fn append_conns_rest(out: &mut String, conns: &Vec<Connection>, i: usize)
    requires
        i <= conns@.len(),
    ensures
        final(out)@ == old(out)@ + render_conns_rest(conns_view(conns@).skip(i as int)),
    decreases conns@.len() - i,
{
    proof {
        assert(conns_view(conns@).len() == conns@.len());
    }
    if i < conns.len() {
        push_char(out, ',');
        append_conn(out, &conns[i]);
        append_conns_rest(out, conns, i + 1);
        proof {
            let t = conns_view(conns@).skip(i as int);
            assert(t[0] == conns@[i as int]@);
            assert(t.skip(1) =~= conns_view(conns@).skip(i as int + 1));
            assert(out@ =~= old(out)@ + render_conns_rest(t));
        }
    } else {
        proof {
            assert(conns_view(conns@).skip(i as int).len() == 0);
            assert(out@ =~= old(out)@ + render_conns_rest(conns_view(conns@).skip(i as int)));
        }
    }
}

/// Serializes the registry to the exact persisted document.
pub fn render_registry(config: &Config) -> (r: String)
    ensures
        r@ == render_config(config@),
{
    let mut out = String::new();
    push_char(&mut out, '{');
    out.append("\"connections\":");
    push_char(&mut out, '[');
    if config.connections.len() == 0 {
        push_char(&mut out, ']');
    } else {
        proof {
            assert(config@[0] == config.connections@[0]@);
        }
        append_conn(&mut out, &config.connections[0]);
        append_conns_rest(&mut out, &config.connections, 1);
        proof {
            assert(config@.skip(1) =~= conns_view(config.connections@).skip(1));
        }
        push_char(&mut out, ']');
    }
    push_char(&mut out, '}');
    proof {
        assert(out@ =~= render_config(config@));
    }
    out
}

} // verus!
