//! The record model and the registry store: uniquely-keyed connection
//! records with keyed CRUD operations that keep slugs unique.

use vstd::prelude::*;
use crate::errors::ErrorKind;
use crate::text::str_eq;

verus! {

/// A local-to-remote port forwarding rule, owned by one connection.
/// Insertion order is forwarding order; duplicates are permitted.
#[derive(Clone, Copy, Debug, PartialEq, Eq, Structural)]
pub struct PortMapping {
    pub local_port: u16,
    pub remote_port: u16,
}

/// One stored profile describing how to reach a remote host.
#[derive(Clone, Debug)]
pub struct Connection {
    pub slug: String,
    pub address: String,
    pub port: u16,
    pub user: String,
    pub ssh_key: String,
    pub port_mappings: Vec<PortMapping>,
}

/// The mathematical value of a [`Connection`].
#[verifier::ext_equal]
pub struct ConnectionV {
    pub slug: Seq<char>,
    pub address: Seq<char>,
    pub port: u16,
    pub user: Seq<char>,
    pub ssh_key: Seq<char>,
    pub port_mappings: Seq<PortMapping>,
}

impl View for Connection {
    type V = ConnectionV;

    open spec fn view(&self) -> ConnectionV {
        ConnectionV {
            slug: self.slug@,
            address: self.address@,
            port: self.port,
            user: self.user@,
            ssh_key: self.ssh_key@,
            port_mappings: self.port_mappings@,
        }
    }
}

/// The values of a sequence of connections.
pub open spec fn conns_view(v: Seq<Connection>) -> Seq<ConnectionV> {
    Seq::new(v.len(), |i: int| v[i]@)
}

/// The full ordered collection of connection records. The sequence order is
/// insertion order; no two connections may share a slug.
#[derive(Debug)]
pub struct Config {
    pub connections: Vec<Connection>,
}

impl View for Config {
    type V = Seq<ConnectionV>;

    open spec fn view(&self) -> Seq<ConnectionV> {
        conns_view(self.connections@)
    }
}

/// The registry-wide invariant: no two connections share a slug.
pub open spec fn unique_slugs(cs: Seq<ConnectionV>) -> bool {
    forall|i: int, j: int|
        0 <= i < j < cs.len() ==> (#[trigger] cs[i]).slug != (#[trigger] cs[j]).slug
}

/// Whether some connection carries the given slug.
pub open spec fn has_slug(cs: Seq<ConnectionV>, slug: Seq<char>) -> bool {
    exists|i: int| 0 <= i < cs.len() && (#[trigger] cs[i]).slug == slug
}

/// The first connection with the given slug, scanning in order.
pub open spec fn spec_find(cs: Seq<ConnectionV>, slug: Seq<char>) -> Option<ConnectionV>
    decreases cs.len(),
{
    if cs.len() == 0 {
        None
    } else if cs[0].slug == slug {
        Some(cs[0])
    } else {
        spec_find(cs.skip(1), slug)
    }
}

/// What a `spec_find` result says about the sequence: a found record is the
/// first match, and a miss means no record matches.
pub proof fn lemma_spec_find(cs: Seq<ConnectionV>, slug: Seq<char>)
    ensures
        match spec_find(cs, slug) {
            Some(c) => exists|i: int|
                0 <= i < cs.len() && (#[trigger] cs[i]).slug == slug && cs[i] == c && (forall|
                    j: int,
                |
                    0 <= j < i ==> cs[j].slug != slug),
            None => forall|i: int| 0 <= i < cs.len() ==> (#[trigger] cs[i]).slug != slug,
        },
    decreases cs.len(),
{
    if cs.len() == 0 {
    } else if cs[0].slug == slug {
        assert(0 <= 0 < cs.len() && cs[0].slug == slug && cs[0] == cs[0]);
    } else {
        let tail = cs.skip(1);
        lemma_spec_find(tail, slug);
        match spec_find(cs, slug) {
            Some(c) => {
                let i = choose|i: int|
                    0 <= i < tail.len() && (#[trigger] tail[i]).slug == slug && tail[i] == c && (
                    forall|j: int| 0 <= j < i ==> tail[j].slug != slug);
                assert(cs[i + 1] == tail[i]);
                assert(forall|j: int| 0 <= j < i + 1 ==> cs[j].slug != slug) by {
                    assert(forall|j: int| 1 <= j < i + 1 ==> cs[j] == tail[j - 1]);
                }
            },
            None => {
                assert(forall|i: int| 1 <= i < cs.len() ==> cs[i] == tail[i - 1]);
            },
        }
    }
}

/// The default port used when the persisted form omits the field.
pub fn default_port() -> (r: u16)
    ensures
        r == 22u16,
{
    22
}

/// Whether a port equals the default and is therefore elided on save.
pub fn is_default_port(port: &u16) -> (r: bool)
    ensures
        r == (*port == 22u16),
{
    *port == 22
}

impl Default for Config {
    /// An empty registry.
    fn default() -> (r: Self)
        ensures
            r@ == Seq::<ConnectionV>::empty(),
    {
        let r = Config { connections: Vec::new() };
        proof {
            assert(r@ =~= Seq::<ConnectionV>::empty());
        }
        r
    }
}

impl Config {
    /// The registry-wide invariant.
    pub open spec fn wf(&self) -> bool {
        unique_slugs(self@)
    }

    /// Linear lookup by exact slug match, case-sensitive.
    pub fn find_connection(&self, slug: &str) -> (r: Option<&Connection>)
        ensures
            match r {
                Some(c) => spec_find(self@, slug@) == Some(c@),
                None => spec_find(self@, slug@) is None,
            },
    {
        let n = self.connections.len();
        let mut k: usize = 0;
        proof {
            assert(self@.skip(0) =~= self@);
        }
        while k < n
            invariant
                k <= n,
                n == self.connections@.len(),
                spec_find(self@, slug@) == spec_find(self@.skip(k as int), slug@),
            decreases n - k,
        {
            proof {
                assert(self@.skip(k as int)[0] == self@[k as int]);
                assert(self@.skip(k as int).skip(1) =~= self@.skip(k as int + 1));
            }
            if str_eq(self.connections[k].slug.as_str(), slug) {
                proof {
                    assert(self@[k as int].slug == slug@);
                }
                return Some(&self.connections[k]);
            }
            k += 1;
        }
        proof {
            assert(self@.skip(n as int).len() == 0);
        }
        None
    }

    /// The position of the first connection with the given slug, for callers
    /// that go on to edit the record in place. (A mutable borrow cannot be
    /// returned from verified code, so the index stands in for one.)
    pub fn find_connection_mut(&mut self, slug: &str) -> (r: Option<usize>)
        ensures
            final(self)@ == old(self)@,
            final(self).connections@ == old(self).connections@,
            match r {
                Some(i) => i < old(self)@.len() && spec_find(old(self)@, slug@) == Some(
                    old(self)@[i as int],
                ) && old(self)@[i as int].slug == slug@ && (forall|j: int|
                    0 <= j < i ==> old(self)@[j].slug != slug@),
                None => spec_find(old(self)@, slug@) is None,
            },
    {
        let r = self.find_index(slug);
        proof {
            if r is Some {
                let i = r->Some_0;
                lemma_spec_find(self@, slug@);
            }
        }
        r
    }

    /// The position of the first connection with the given slug.
    fn find_index(&self, slug: &str) -> (r: Option<usize>)
        ensures
            match r {
                Some(i) => i < self@.len() && self@[i as int].slug == slug@ && (forall|j: int|
                    0 <= j < i ==> self@[j].slug != slug@) && spec_find(self@, slug@) == Some(
                    self@[i as int],
                ),
                None => spec_find(self@, slug@) is None && !has_slug(self@, slug@),
            },
    {
        let n = self.connections.len();
        let mut k: usize = 0;
        proof {
            assert(self@.skip(0) =~= self@);
        }
        while k < n
            invariant
                k <= n,
                n == self.connections@.len(),
                forall|j: int| 0 <= j < k ==> self@[j].slug != slug@,
                spec_find(self@, slug@) == spec_find(self@.skip(k as int), slug@),
            decreases n - k,
        {
            proof {
                assert(self@.skip(k as int)[0] == self@[k as int]);
                assert(self@.skip(k as int).skip(1) =~= self@.skip(k as int + 1));
            }
            if str_eq(self.connections[k].slug.as_str(), slug) {
                return Some(k);
            }
            k += 1;
        }
        proof {
            assert(self@.skip(n as int).len() == 0);
        }
        None
    }

    /// Appends a connection, unless its slug is already taken; the registry
    /// is unchanged on failure, and the error names the offending slug.
    pub fn add_connection(&mut self, connection: Connection) -> (r: Result<(), ErrorKind>)
        ensures
            match r {
                Ok(()) => !has_slug(old(self)@, connection@.slug) && final(self)@ == old(
                    self,
                )@.push(connection@),
                Err(e) => e matches ErrorKind::DuplicateKey(s) && s@ == connection@.slug
                    && has_slug(old(self)@, connection@.slug) && final(self)@ == old(self)@,
            },
            old(self).wf() ==> final(self).wf(),
    {
        match self.find_index(connection.slug.as_str()) {
            Some(_) => {
                proof {
                    lemma_spec_find(self@, connection@.slug);
                }
                Err(ErrorKind::DuplicateKey(connection.slug))
            },
            None => {
                let ghost cv = connection@;
                let ghost olds = self@;
                self.connections.push(connection);
                proof {
                    assert(self@ =~= olds.push(cv));
                    if unique_slugs(olds) {
                        assert forall|i: int, j: int| 0 <= i < j < self@.len() implies (
                        #[trigger] self@[i]).slug != (#[trigger] self@[j]).slug by {
                            if j == olds.len() {
                                assert(self@[i] == olds[i]);
                            }
                        }
                    }
                }
                Ok(())
            },
        }
    }

    /// Removes the connection with the given slug, preserving the relative
    /// order of the remaining entries; the registry is unchanged on failure,
    /// and the error names the missing slug.
    pub fn remove_connection(&mut self, slug: &str) -> (r: Result<(), ErrorKind>)
        ensures
            match r {
                Ok(()) => exists|i: int|
                    0 <= i < old(self)@.len() && (#[trigger] old(self)@[i]).slug == slug@ && (
                    forall|j: int| 0 <= j < i ==> old(self)@[j].slug != slug@) && final(self)@
                    == old(self)@.remove(i),
                Err(e) => e matches ErrorKind::NotFound(s) && s@ == slug@ && !has_slug(
                    old(self)@,
                    slug@,
                ) && final(self)@ == old(self)@,
            },
            old(self).wf() ==> final(self).wf(),
    {
        match self.find_index(slug) {
            None => Err(ErrorKind::NotFound(slug.to_owned())),
            Some(k) => {
                let ghost olds = self@;
                let _removed = self.connections.remove(k);
                proof {
                    assert(self@ =~= olds.remove(k as int));
                    if unique_slugs(olds) {
                        assert forall|i: int, j: int| 0 <= i < j < self@.len() implies (
                        #[trigger] self@[i]).slug != (#[trigger] self@[j]).slug by {
                            let i0 = if i < k { i } else { i + 1 };
                            let j0 = if j < k { j } else { j + 1 };
                            assert(self@[i] == olds[i0] && self@[j] == olds[j0]);
                        }
                    }
                }
                Ok(())
            },
        }
    }

    /// Replaces, in full and in place, the connection that currently has
    /// `old_slug` with `connection`. Fails with `NotFound` when no
    /// connection has `old_slug`; otherwise fails with `DuplicateKey` when
    /// the new slug differs and is already taken. The registry is unchanged
    /// on failure, and each error names the slug it is about.
    pub fn update_connection(&mut self, old_slug: &str, connection: Connection) -> (r: Result<
        (),
        ErrorKind,
    >)
        ensures
            match r {
                Ok(()) => has_slug(old(self)@, old_slug@) && !(connection@.slug != old_slug@
                    && has_slug(old(self)@, connection@.slug)) && exists|i: int|
                    0 <= i < old(self)@.len() && (#[trigger] old(self)@[i]).slug == old_slug@ && (
                    forall|j: int| 0 <= j < i ==> old(self)@[j].slug != old_slug@) && final(self)@
                    == old(self)@.update(i, connection@),
                Err(e) => final(self)@ == old(self)@ && (if !has_slug(old(self)@, old_slug@) {
                    e matches ErrorKind::NotFound(s) && s@ == old_slug@
                } else {
                    e matches ErrorKind::DuplicateKey(s) && s@ == connection@.slug
                        && connection@.slug != old_slug@ && has_slug(old(self)@, connection@.slug)
                }),
            },
            old(self).wf() ==> final(self).wf(),
    {
        let k = match self.find_index(old_slug) {
            None => {
                return Err(ErrorKind::NotFound(old_slug.to_owned()));
            },
            Some(k) => k,
        };
        if !str_eq(old_slug, connection.slug.as_str()) {
            match self.find_index(connection.slug.as_str()) {
                Some(_) => {
                    return Err(ErrorKind::DuplicateKey(connection.slug));
                },
                None => {},
            }
        }
        let ghost olds = self@;
        let ghost cv = connection@;
        let _replaced = self.connections.remove(k);
        self.connections.insert(k, connection);
        proof {
            assert(self@ =~= olds.update(k as int, cv));
            if unique_slugs(olds) {
                assert forall|i: int, j: int| 0 <= i < j < self@.len() implies (
                #[trigger] self@[i]).slug != (#[trigger] self@[j]).slug by {
                    if i != k && j != k {
                        assert(self@[i] == olds[i] && self@[j] == olds[j]);
                    } else {
                        let m = if i == k { j } else { i };
                        assert(self@[m] == olds[m]);
                        if cv.slug == old_slug@ {
                            assert(olds[k as int].slug == old_slug@);
                        } else {
                            assert(!has_slug(olds, cv.slug));
                        }
                    }
                }
            }
        }
        Ok(())
    }

    /// Appends a port mapping to the connection with the given slug; the
    /// registry is unchanged when no connection has it, and the error names
    /// the missing slug. Duplicate and overlapping mappings are accepted
    /// silently.
    pub fn add_port_mapping(&mut self, slug: &str, mapping: PortMapping) -> (r: Result<
        (),
        ErrorKind,
    >)
        ensures
            match r {
                Ok(()) => exists|i: int|
                    0 <= i < old(self)@.len() && (#[trigger] old(self)@[i]).slug == slug@ && (
                    forall|j: int| 0 <= j < i ==> old(self)@[j].slug != slug@) && final(self)@
                    == old(self)@.update(
                        i,
                        (ConnectionV {
                            port_mappings: old(self)@[i].port_mappings.push(mapping),
                            ..old(self)@[i]
                        }),
                    ),
                Err(e) => e matches ErrorKind::NotFound(s) && s@ == slug@ && !has_slug(
                    old(self)@,
                    slug@,
                ) && final(self)@ == old(self)@,
            },
            old(self).wf() ==> final(self).wf(),
    {
        match self.find_index(slug) {
            None => Err(ErrorKind::NotFound(slug.to_owned())),
            Some(k) => {
                let ghost olds = self@;
                let mut c = self.connections.remove(k);
                let ghost cv0 = c@;
                c.port_mappings.push(mapping);
                proof {
                    assert(c@ =~= (ConnectionV { port_mappings: cv0.port_mappings.push(mapping), ..cv0 }));
                }
                let ghost cv = c@;
                self.connections.insert(k, c);
                proof {
                    assert(cv0 == olds[k as int]);
                    assert(self@ =~= olds.update(k as int, cv));
                    if unique_slugs(olds) {
                        assert forall|i: int, j: int| 0 <= i < j < self@.len() implies (
                        #[trigger] self@[i]).slug != (#[trigger] self@[j]).slug by {
                            assert(cv.slug == olds[k as int].slug);
                            if i != k {
                                assert(self@[i] == olds[i]);
                            }
                            if j != k {
                                assert(self@[j] == olds[j]);
                            }
                        }
                    }
                }
                Ok(())
            },
        }
    }
}

/// Law: adding a connection whose slug is free and then looking that slug
/// up returns exactly the added connection.
pub proof fn lemma_add_then_find(cs: Seq<ConnectionV>, c: ConnectionV)
    requires
        !has_slug(cs, c.slug),
    ensures
        spec_find(cs.push(c), c.slug) == Some(c),
    decreases cs.len(),
{
    if cs.len() == 0 {
        assert(cs.push(c)[0] == c);
    } else {
        assert(cs[0].slug != c.slug);
        assert(!has_slug(cs.skip(1), c.slug)) by {
            if has_slug(cs.skip(1), c.slug) {
                let i = choose|i: int|
                    0 <= i < cs.skip(1).len() && (#[trigger] cs.skip(1)[i]).slug == c.slug;
                assert(cs[i + 1].slug == c.slug);
            }
        }
        lemma_add_then_find(cs.skip(1), c);
        assert(cs.push(c).skip(1) =~= cs.skip(1).push(c));
        assert(cs.push(c)[0] == cs[0]);
    }
}

/// Law: removing the first record with a slug from a registry with unique
/// slugs leaves no record with that slug, so a subsequent lookup misses.
pub proof fn lemma_remove_then_find(cs: Seq<ConnectionV>, slug: Seq<char>, i: int)
    requires
        unique_slugs(cs),
        0 <= i < cs.len(),
        cs[i].slug == slug,
    ensures
        spec_find(cs.remove(i), slug) is None,
{
    let rest = cs.remove(i);
    lemma_spec_find(rest, slug);
    if spec_find(rest, slug) is Some {
        let k = choose|k: int| 0 <= k < rest.len() && (#[trigger] rest[k]).slug == slug;
        let k0 = if k < i { k } else { k + 1 };
        assert(rest[k] == cs[k0]);
        assert(cs[k0].slug == cs[i].slug && k0 != i);
    }
}

} // verus!
