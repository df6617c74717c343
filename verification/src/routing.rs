//! Where the central controller sends each message.
use vstd::prelude::*;

verus! {

/// Who sent a message to the controller.
#[derive(Clone, Copy, Debug, PartialEq, Eq)]
pub enum Source {
    /// The HTTP and web-socket API.
    Api,
    /// The device poller.
    Reader,
    /// The database worker, with changes of the node configuration.
    Database,
}

/// What kind of message it is.
#[derive(Clone, Copy, Debug, PartialEq, Eq)]
pub enum MsgKind {
    Request,
    Command,
    Event,
    /// A node's configuration changed.
    ConfigEvent,
}

/// Where the controller passes a message on.
#[derive(Clone, Copy, Debug, PartialEq, Eq)]
pub enum Destination {
    Database,
    Api,
    Reader,
}

/// The controller's routing, in the order the message is passed on:
/// requests go to the database; commands come from the API only and go to
/// the database; events come from the poller only and go to the database,
/// then to the API; configuration changes come from the database worker
/// and go to the poller. Anything else goes nowhere (and is logged).
pub open spec fn destinations_spec(source: Source, kind: MsgKind) -> Seq<Destination> {
    match (source, kind) {
        (Source::Api, MsgKind::Request) => seq![Destination::Database],
        (Source::Reader, MsgKind::Request) => seq![Destination::Database],
        (Source::Api, MsgKind::Command) => seq![Destination::Database],
        (Source::Reader, MsgKind::Event) => seq![Destination::Database, Destination::Api],
        (Source::Database, MsgKind::ConfigEvent) => seq![Destination::Reader],
        _ => Seq::empty(),
    }
}

/// Where the controller passes a message of `kind` from `source` on, in
/// order; empty for a message the sender may not send.
pub fn destinations(source: Source, kind: MsgKind) -> (r: Vec<Destination>)
    ensures
        r@ == destinations_spec(source, kind),
{
    match (source, kind) {
        (Source::Api, MsgKind::Request) | (Source::Reader, MsgKind::Request) | (Source::Api, MsgKind::Command) => {
            vec![Destination::Database]
        },
        (Source::Reader, MsgKind::Event) => vec![Destination::Database, Destination::Api],
        (Source::Database, MsgKind::ConfigEvent) => vec![Destination::Reader],
        _ => Vec::new(),
    }
}

/// The positions, in order, of the messages of `msgs` that the controller,
/// taking them one after another, passes on to `d`.
pub open spec fn forwarded(msgs: Seq<(Source, MsgKind)>, d: Destination) -> Seq<int>
    decreases msgs.len(),
{
    if msgs.len() == 0 {
        Seq::empty()
    } else {
        let prev = forwarded(msgs.drop_last(), d);
        if destinations_spec(msgs.last().0, msgs.last().1).contains(d) {
            prev.push(msgs.len() - 1)
        } else {
            prev
        }
    }
}

/// Law: of a stream of messages, each destination receives exactly those
/// its routing sends there, in the order they came; the API receives only
/// the poller's events, the poller only the database worker's configuration
/// changes; and an event reaches the database before the API.
pub proof fn law_forwarding_keeps_order(msgs: Seq<(Source, MsgKind)>, d: Destination)
    ensures
        forall|a: int, b: int| 0 <= a < b < forwarded(msgs, d).len() ==> forwarded(msgs, d)[a] < forwarded(msgs, d)[b],
        forall|k: int|
            0 <= k < forwarded(msgs, d).len() ==> 0 <= #[trigger] forwarded(msgs, d)[k] < msgs.len()
                && destinations_spec(msgs[forwarded(msgs, d)[k]].0, msgs[forwarded(msgs, d)[k]].1).contains(d),
        forall|i: int|
            0 <= i < msgs.len() && destinations_spec(#[trigger] msgs[i].0, msgs[i].1).contains(d) ==> forwarded(
                msgs,
                d,
            ).contains(i),
        forall|i: int|
            0 <= i < msgs.len() && destinations_spec(#[trigger] msgs[i].0, msgs[i].1).contains(Destination::Api) ==> msgs[i]
                == (Source::Reader, MsgKind::Event),
        forall|i: int|
            0 <= i < msgs.len() && destinations_spec(#[trigger] msgs[i].0, msgs[i].1).contains(Destination::Reader)
                ==> msgs[i] == (Source::Database, MsgKind::ConfigEvent),
        destinations_spec(Source::Reader, MsgKind::Event) == seq![Destination::Database, Destination::Api],
    decreases msgs.len(),
{
    if msgs.len() > 0 {
        let prev = msgs.drop_last();
        law_forwarding_keeps_order(prev, d);
        let f = forwarded(msgs, d);
        let pf = forwarded(prev, d);
        let n: int = msgs.len() - 1;
        assert forall|k: int| 0 <= k < pf.len() implies f[k] == pf[k] && pf[k] < n by {
            assert(0 <= pf[k] < prev.len());
        }
        assert forall|k: int| 0 <= k < f.len() implies 0 <= #[trigger] f[k] < msgs.len()
            && destinations_spec(msgs[f[k]].0, msgs[f[k]].1).contains(d) by {
            if k < pf.len() {
                assert(0 <= pf[k] < prev.len());
                assert(msgs[pf[k]] == prev[pf[k]]);
            }
        }
        assert forall|i: int|
            0 <= i < msgs.len() && destinations_spec(#[trigger] msgs[i].0, msgs[i].1).contains(d) implies f.contains(i) by {
            if i < n {
                assert(prev[i] == msgs[i]);
                let k = choose|k: int| 0 <= k < pf.len() && pf[k] == i;
                assert(f[k] == i);
            } else {
                assert(f[pf.len() as int] == i);
            }
        }
        assert forall|i: int|
            0 <= i < msgs.len() && destinations_spec(#[trigger] msgs[i].0, msgs[i].1).contains(Destination::Api) implies msgs[i]
            == (Source::Reader, MsgKind::Event) by {
            let (s, m) = msgs[i];
            match (s, m) {
                (Source::Reader, MsgKind::Event) => {},
                _ => {
                    assert(!destinations_spec(s, m).contains(Destination::Api));
                },
            }
        }
        assert forall|i: int|
            0 <= i < msgs.len() && destinations_spec(#[trigger] msgs[i].0, msgs[i].1).contains(Destination::Reader)
            implies msgs[i] == (Source::Database, MsgKind::ConfigEvent) by {
            let (s, m) = msgs[i];
            match (s, m) {
                (Source::Database, MsgKind::ConfigEvent) => {},
                _ => {
                    assert(!destinations_spec(s, m).contains(Destination::Reader));
                },
            }
        }
    }
}

} // verus!
