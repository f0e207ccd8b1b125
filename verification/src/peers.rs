//! Candidate peers of a download: who they are and in which order they are
//! tried.

use crate::error::Error;
use vstd::prelude::*;

verus! {

/// A network address, as the number that the address stands for.
#[derive(Debug, Clone, Copy, PartialEq, Eq, Structural)]
pub enum IpAddress {
    V4(u32),
    V6(u128),
}

/// Where a peer listens.
#[derive(Debug, Clone, Copy, PartialEq, Eq, Structural)]
pub struct PeerAddress {
    pub ip: IpAddress,
    pub port: u16,
}

/// What the name of a host to listen on stands for.
#[derive(Debug, Clone, PartialEq, Eq)]
pub enum Host {
    /// This machine, by its loopback address.
    Loopback,
    /// The address that the text denotes.
    Address(String),
}

/// Reads the name of a host: `localhost` is this machine; anything else is
/// the text of an address.
pub fn resolve_host(src: &str) -> (host: Host)
    ensures
        src@ == "localhost"@ ==> host == Host::Loopback,
        src@ != "localhost"@ ==> (host matches Host::Address(text) && text@ == src@),
{
    let name = String::from_str(src);
    if name == String::from_str("localhost") {
        Host::Loopback
    } else {
        Host::Address(name)
    }
}

/// The addresses of `s` in the order of their first occurrence, each once.
pub open spec fn distinct(s: Seq<PeerAddress>) -> Seq<PeerAddress>
    decreases s.len(),
{
    if s.len() == 0 {
        s
    } else if distinct(s.drop_last()).contains(s.last()) {
        distinct(s.drop_last())
    } else {
        distinct(s.drop_last()).push(s.last())
    }
}

/// `distinct` names every address of the list, names no other, and names
/// none twice.
pub proof fn lemma_distinct(s: Seq<PeerAddress>)
    ensures
        distinct(s).no_duplicates(),
        forall|p: PeerAddress| #[trigger] distinct(s).contains(p) <==> s.contains(p),
    decreases s.len(),
{
    if s.len() > 0 {
        let rest = s.drop_last();
        let last = s.last();
        let d0 = distinct(rest);
        let d = distinct(s);
        lemma_distinct(rest);
        assert forall|p: PeerAddress| #[trigger] d.contains(p) <==> s.contains(p) by {
            if d.contains(p) {
                let i = choose|i: int| 0 <= i < d.len() && d[i] == p;
                if i < d0.len() {
                    assert(d0[i] == p);
                    assert(d0.contains(p));
                    assert(rest.contains(p));
                    let k = choose|k: int| 0 <= k < rest.len() && rest[k] == p;
                    assert(s[k] == p);
                } else {
                    assert(s[s.len() - 1] == p);
                }
            }
            if s.contains(p) {
                let k = choose|k: int| 0 <= k < s.len() && s[k] == p;
                if k < rest.len() {
                    assert(rest[k] == p);
                    assert(rest.contains(p));
                    assert(d0.contains(p));
                    let i = choose|i: int| 0 <= i < d0.len() && d0[i] == p;
                    assert(d[i] == p);
                } else if d0.contains(last) {
                } else {
                    assert(d[d.len() - 1] == p);
                }
            }
        }
    }
}

fn contains_peer(list: &Vec<PeerAddress>, peer: PeerAddress) -> (found: bool)
    ensures
        found == list@.contains(peer),
{
    let mut i: usize = 0;
    while i < list.len()
        invariant
            i <= list.len(),
            forall|k: int| 0 <= k < i ==> list@[k] != peer,
        decreases list.len() - i,
    {
        if list[i] == peer {
            return true;
        }
        i += 1;
    }
    false
}

/// Collapses duplicate addresses: every address is kept once, at the place
/// of its first occurrence.
pub fn dedup_peers(peers: &Vec<PeerAddress>) -> (out: Vec<PeerAddress>)
    ensures
        out@ == distinct(peers@),
{
    let mut out: Vec<PeerAddress> = Vec::new();
    let mut i: usize = 0;
    while i < peers.len()
        invariant
            i <= peers.len(),
            out@ == distinct(peers@.take(i as int)),
        decreases peers.len() - i,
    {
        proof {
            let next = peers@.take(i + 1);
            assert(next.drop_last() == peers@.take(i as int));
            assert(next.last() == peers@[i as int]);
        }
        if !contains_peer(&out, peers[i]) {
            out.push(peers[i]);
        }
        i += 1;
    }
    assert(peers@.take(i as int) == peers@);
    out
}

/// What to do next while looking for a peer to download from.
#[derive(Debug, Clone, PartialEq, Eq)]
pub enum SearchStep {
    /// Connect to this peer and ask it for the manifest.
    Try(PeerAddress),
    /// No candidate is left: the download fails with this error.
    GiveUp(Error),
}

/// The search for a peer that serves a resource. Candidates are tried one
/// after the other, in the order in which they were named; the first that
/// answers with the manifest is the peer of the download.
pub struct PeerSearch {
    hash: u128,
    candidates: Vec<PeerAddress>,
    tried: usize,
}

impl PeerSearch {
    #[verifier::type_invariant]
    spec fn in_range(&self) -> bool {
        self.tried <= self.candidates@.len()
    }

    /// Hash of the resource that is looked for.
    pub closed spec fn hash(&self) -> u128 {
        self.hash
    }

    /// The candidates, in the order in which they are tried.
    pub closed spec fn candidates(&self) -> Seq<PeerAddress> {
        self.candidates@
    }

    /// Number of candidates that were handed out.
    pub closed spec fn tried(&self) -> nat {
        self.tried as nat
    }

    /// A search for the resource `hash` among `peers`.
    pub fn new(hash: u128, peers: &Vec<PeerAddress>) -> (s: PeerSearch)
        ensures
            s.hash() == hash,
            s.candidates() == distinct(peers@),
            s.tried() == 0,
    {
        PeerSearch { hash, candidates: dedup_peers(peers), tried: 0 }
    }

    /// The next candidate; when none is left, the error that ends the
    /// download.
    pub fn next(&mut self) -> (step: SearchStep)
        ensures
            final(self).hash() == old(self).hash(),
            final(self).candidates() == old(self).candidates(),
            old(self).tried() <= old(self).candidates().len(),
            step == if old(self).tried() < old(self).candidates().len() {
                SearchStep::Try(old(self).candidates()[old(self).tried() as int])
            } else {
                SearchStep::GiveUp(Error::ResourceNotFound(old(self).hash()))
            },
            final(self).tried() == if old(self).tried() < old(self).candidates().len() {
                old(self).tried() + 1
            } else {
                old(self).tried()
            },
    {
        proof {
            use_type_invariant(&*self);
        }
        if self.tried < self.candidates.len() {
            let peer = self.candidates[self.tried];
            self.tried = self.tried + 1;
            SearchStep::Try(peer)
        } else {
            SearchStep::GiveUp(Error::ResourceNotFound(self.hash))
        }
    }
}

} // verus!
