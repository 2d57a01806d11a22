//! The command builder: translates a resolved connection into the exact
//! ordered argument list for each of the three external remote-access
//! operations. Pure functions of their inputs — no I/O and no prompting —
//! so repeated calls on the same connection yield identical lists.

use vstd::prelude::*;
use crate::registry::{Connection, ConnectionV, PortMapping};
use crate::text::{append_u16, render_u16, u16_to_string};

verus! {

/// One port-forward value: `{local}:localhost:{remote}`.
pub open spec fn spec_forward_arg(m: PortMapping) -> Seq<char> {
    render_u16(m.local_port) + ":localhost:"@ + render_u16(m.remote_port)
}

/// The destination operand: `{user}@{address}`.
pub open spec fn spec_destination(c: ConnectionV) -> Seq<char> {
    c.user + "@"@ + c.address
}

/// The port-forward flags, one `-L` pair per mapping, in stored order.
pub open spec fn spec_forward_flags(ms: Seq<PortMapping>) -> Seq<Seq<char>>
    decreases ms.len(),
{
    if ms.len() == 0 {
        Seq::empty()
    } else {
        spec_forward_flags(ms.drop_last()) + seq!["-L"@, spec_forward_arg(ms.last())]
    }
}

/// Arguments for an interactive session: key, port, one `-L` flag per
/// stored mapping in order, then the destination.
pub open spec fn spec_session_args(c: ConnectionV) -> Seq<Seq<char>> {
    seq!["-i"@, c.ssh_key, "-p"@, render_u16(c.port)] + spec_forward_flags(c.port_mappings)
        + seq![spec_destination(c)]
}

/// Arguments for a file transfer: the port flag is capitalized and port
/// forwards do not apply.
pub open spec fn spec_file_transfer_args(c: ConnectionV) -> Seq<Seq<char>> {
    seq!["-i"@, c.ssh_key, "-P"@, render_u16(c.port), spec_destination(c)]
}

/// Arguments for installing the key on the remote host.
pub open spec fn spec_key_install_args(c: ConnectionV) -> Seq<Seq<char>> {
    seq!["-i"@, c.ssh_key, "-p"@, render_u16(c.port), spec_destination(c)]
}

/// The `{local}:localhost:{remote}` form of one mapping.
pub fn forward_arg(m: &PortMapping) -> (r: String)
    ensures
        r@ == spec_forward_arg(*m),
{
    let mut s = u16_to_string(m.local_port);
    s.append(":localhost:");
    append_u16(&mut s, m.remote_port);
    proof {
        assert(s@ =~= spec_forward_arg(*m));
    }
    s
}

/// The `{user}@{address}` destination operand.
pub fn destination(conn: &Connection) -> (r: String)
    ensures
        r@ == spec_destination(conn@),
{
    let mut s = String::from_str(conn.user.as_str());
    s.append("@");
    s.append(conn.address.as_str());
    proof {
        assert(s@ =~= spec_destination(conn@));
    }
    s
}

/// Builds the interactive-session argument list for a connection.
pub fn session_args(conn: &Connection) -> (r: Vec<String>)
    ensures
        r.deep_view() == spec_session_args(conn@),
{
    let ghost base: Seq<Seq<char>> = seq![
        "-i"@,
        conn@.ssh_key,
        "-p"@,
        render_u16(conn.port),
    ];
    let mut args: Vec<String> = Vec::new();
    args.push("-i".to_owned());
    args.push(String::from_str(conn.ssh_key.as_str()));
    args.push("-p".to_owned());
    args.push(u16_to_string(conn.port));
    proof {
        assert(args.deep_view() =~= base + spec_forward_flags(conn@.port_mappings.take(0)));
    }
    let n = conn.port_mappings.len();
    let mut i: usize = 0;
    while i < n
        invariant
            i <= n,
            n == conn.port_mappings@.len(),
            base == seq!["-i"@, conn@.ssh_key, "-p"@, render_u16(conn.port)],
            args.deep_view() == base + spec_forward_flags(conn@.port_mappings.take(i as int)),
        decreases n - i,
    {
        let ghost args0 = args.deep_view();
        args.push("-L".to_owned());
        let m = conn.port_mappings[i];
        args.push(forward_arg(&m));
        proof {
            let ms = conn@.port_mappings;
            let pre = ms.take(i + 1);
            assert(pre.drop_last() =~= ms.take(i as int));
            assert(pre.last() == ms[i as int]);
            assert(spec_forward_flags(pre) == spec_forward_flags(ms.take(i as int)) + seq![
                "-L"@,
                spec_forward_arg(ms[i as int]),
            ]);
            assert(args.deep_view() =~= args0 + seq!["-L"@, spec_forward_arg(ms[i as int])]);
            assert(args0 + seq!["-L"@, spec_forward_arg(ms[i as int])] =~= base
                + spec_forward_flags(pre));
        }
        i += 1;
    }
    args.push(destination(conn));
    proof {
        assert(conn@.port_mappings.take(n as int) =~= conn@.port_mappings);
        assert(args.deep_view() =~= spec_session_args(conn@));
    }
    args
}

/// Builds the file-transfer argument list for a connection.
pub fn file_transfer_args(conn: &Connection) -> (r: Vec<String>)
    ensures
        r.deep_view() == spec_file_transfer_args(conn@),
{
    let mut args: Vec<String> = Vec::new();
    args.push("-i".to_owned());
    args.push(String::from_str(conn.ssh_key.as_str()));
    args.push("-P".to_owned());
    args.push(u16_to_string(conn.port));
    args.push(destination(conn));
    proof {
        assert(args.deep_view() =~= spec_file_transfer_args(conn@));
    }
    args
}

/// Builds the key-installation argument list for a connection.
pub fn key_install_args(conn: &Connection) -> (r: Vec<String>)
    ensures
        r.deep_view() == spec_key_install_args(conn@),
{
    let mut args: Vec<String> = Vec::new();
    args.push("-i".to_owned());
    args.push(String::from_str(conn.ssh_key.as_str()));
    args.push("-p".to_owned());
    args.push(u16_to_string(conn.port));
    args.push(destination(conn));
    proof {
        assert(args.deep_view() =~= spec_key_install_args(conn@));
    }
    args
}

} // verus!
