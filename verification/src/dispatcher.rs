//! The request dispatcher: the configuration of a deployment and the source
//! of exchanges.
//!
//! Every exchange is given a ticket that no other exchange of the same
//! dispatcher has, so that two requests that miss on the same key fetch and
//! write apart from each other, each into a pending artifact of its own.
//! Whichever commits first provides the body; a later commit for the same
//! key changes nothing and only removes its own pending artifact.

use crate::exchange::{initial, Exchange};
use crate::key::{key_of, option_bytes, CacheKey};
use crate::layout::{lemma_names_distinct, locate, pending_name, storage_path};
use crate::octets::copy_of;
use crate::wire::{build_upstream_target, upstream_target, uri_accepts, uri_parses};
use vstd::prelude::*;

verus! {

/// What a deployment is configured with.
pub struct ConfigView {
    /// The authority of the upstream server, as it stands in a URI.
    pub authority: Seq<u8>,
    /// Whether upstream is reached over TLS.
    pub secure: bool,
    /// The directory that holds the artifacts.
    pub root: Seq<u8>,
    /// The seconds that upstream is given to begin its answer; at least one.
    pub patience: u64,
}

/// The configuration of a deployment.
#[derive(Debug)]
pub struct Config {
    authority: Vec<u8>,
    secure: bool,
    root: Vec<u8>,
    patience: u64,
}

impl Config {
    pub closed spec fn view(&self) -> ConfigView {
        ConfigView {
            authority: self.authority@,
            secure: self.secure,
            root: self.root@,
            patience: self.patience,
        }
    }

    /// A configuration with the given upstream authority, transport, storage
    /// root and time for upstream to answer. No time at all is taken for the
    /// least: one second.
    pub fn new(authority: &[u8], secure: bool, root: &[u8], patience: u64) -> (config: Config)
        ensures
            config@ == (ConfigView {
                authority: authority@,
                secure,
                root: root@,
                patience: bounded_patience(patience),
            }),
    {
        Config {
            authority: copy_of(authority),
            secure,
            root: copy_of(root),
            patience: if patience == 0 {
                1
            } else {
                patience
            },
        }
    }

    /// Where the artifact `name` lives.
    pub fn artifact_path(&self, name: &[u8]) -> (path: Vec<u8>)
        ensures
            path@ == storage_path(self@.root, name@),
    {
        locate(self.root.as_slice(), name)
    }
}

/// The time that upstream is given: what was asked for, but at least one
/// second.
pub open spec fn bounded_patience(requested: u64) -> u64 {
    if requested == 0 {
        1
    } else {
        requested
    }
}

/// The ticket of the exchange that is opened after `issued` others: their
/// number, as long as numbers are left.
pub open spec fn ticket_after(issued: u64) -> Option<u64> {
    if issued < u64::MAX {
        Some(issued)
    } else {
        None
    }
}

/// The number of exchanges opened after one more.
pub open spec fn issued_after(issued: u64) -> u64 {
    if issued < u64::MAX {
        (issued + 1) as u64
    } else {
        issued
    }
}

/// Tickets are unique. Of two exchanges that one dispatcher opened, the
/// later has no ticket or another ticket than the earlier, and so another
/// pending artifact, also for the same key.
pub proof fn lemma_tickets_differ(earlier: u64, later: u64, key: Seq<u8>)
    requires
        earlier < later,
    ensures
        ticket_after(earlier) == Some(earlier),
        ticket_after(later) != ticket_after(earlier),
        ticket_after(later) matches Some(ticket) ==> pending_name(key, ticket) != pending_name(
            key,
            earlier,
        ),
{
    match ticket_after(later) {
        Some(ticket) => {
            lemma_names_distinct(key, ticket, key, earlier);
        },
        None => {},
    }
}

/// The source of exchanges.
#[derive(Debug)]
pub struct Dispatcher {
    config: Config,
    issued: u64,
}

impl Dispatcher {
    /// The configuration that the dispatcher was made with.
    pub closed spec fn config(&self) -> ConfigView {
        self.config@
    }

    /// The number of exchanges that were given a ticket.
    pub closed spec fn issued(&self) -> u64 {
        self.issued
    }

    /// A dispatcher that has opened no exchange yet.
    pub fn new(config: Config) -> (dispatcher: Dispatcher)
        ensures
            dispatcher.config() == config@,
            dispatcher.issued() == 0,
    {
        Dispatcher { config, issued: 0 }
    }

    /// Where the artifact `name` lives.
    pub fn artifact_path(&self, name: &[u8]) -> (path: Vec<u8>)
        ensures
            path@ == storage_path(self.config().root, name@),
    {
        self.config.artifact_path(name)
    }

    /// Opens the exchange for a request with the given path and query. Its
    /// key is the key of that target, its ticket is one that no earlier
    /// exchange of this dispatcher has, and its upstream target is the
    /// configured upstream followed by path and query.
    pub fn accept(&mut self, path: &[u8], query: Option<&[u8]>) -> (exchange: Exchange)
        ensures
            exchange@ == initial(
                key_of(path@, option_bytes(query)),
                ticket_after(old(self).issued()),
                upstream_target(
                    old(self).config().secure,
                    old(self).config().authority,
                    path@,
                    option_bytes(query),
                ),
                uri_accepts(
                    upstream_target(
                        old(self).config().secure,
                        old(self).config().authority,
                        path@,
                        option_bytes(query),
                    ),
                ),
                old(self).config().patience,
            ),
            final(self).config() == old(self).config(),
            final(self).issued() == issued_after(old(self).issued()),
    {
        let key = CacheKey::derive(path, query);
        let target = build_upstream_target(
            self.config.secure,
            self.config.authority.as_slice(),
            path,
            query,
        );
        let target_ok = uri_parses(target.as_slice());
        let ticket = if self.issued < u64::MAX {
            let ticket = self.issued;
            self.issued = self.issued + 1;
            Some(ticket)
        } else {
            None
        };
        Exchange::open(key, ticket, target, target_ok, self.config.patience)
    }
}

} // verus!
