use vstd::prelude::*;
use crate::models::{ReaderApiModel, StatusApiModel};

verus! {

/// What the overview page shows.
pub enum HomeContent {
    /// No status answer: "Connecting to server…".
    Connecting,
    /// The server answered but is still loading its data: "Server is initializing…".
    Initializing,
    /// The overview of a loaded server.
    Overview,
}

/// What the overview page shows for the last status answer.
pub fn home_content(status: &Option<StatusApiModel>) -> (r: HomeContent)
    ensures
        match *status {
            None => r is Connecting,
            Some(s) => if s.initialized is Some {
                r is Overview
            } else {
                r is Initializing
            },
        },
{
    match status {
        None => HomeContent::Connecting,
        Some(s) => if s.initialized.is_some() {
            HomeContent::Overview
        } else {
            HomeContent::Initializing
        },
    }
}

/// Splits reader connections into replicating nodes and client readers,
/// each in the order listed.
pub fn partition_readers(readers: Vec<ReaderApiModel>) -> (r: (Vec<ReaderApiModel>, Vec<ReaderApiModel>))
    ensures
        r.0@ == readers@.filter(|x: ReaderApiModel| x.is_node),
        r.1@ == readers@.filter(|x: ReaderApiModel| !x.is_node),
{
    let ghost all = readers@;
    let mut rest = readers;
    let mut nodes: Vec<ReaderApiModel> = Vec::new();
    let mut clients: Vec<ReaderApiModel> = Vec::new();
    let ghost mut taken: int = 0;
    proof {
        assert(all.take(0).filter(|x: ReaderApiModel| x.is_node) =~= Seq::<ReaderApiModel>::empty());
        assert(all.take(0).filter(|x: ReaderApiModel| !x.is_node) =~= Seq::<ReaderApiModel>::empty());
        assert(rest@ =~= all.skip(0));
    }
    while rest.len() > 0
        invariant
            0 <= taken <= all.len(),
            rest@ == all.skip(taken),
            nodes@ == all.take(taken).filter(|x: ReaderApiModel| x.is_node),
            clients@ == all.take(taken).filter(|x: ReaderApiModel| !x.is_node),
        decreases rest.len(),
    {
        let ghost before = rest@;
        let x = rest.remove(0);
        proof {
            assert(x == all[taken]);
            assert(all.take(taken + 1).drop_last() =~= all.take(taken));
            assert(all.take(taken + 1).last() == x);
            reveal(Seq::filter);
            assert(rest@ =~= all.skip(taken + 1));
        }
        if x.is_node {
            nodes.push(x);
        } else {
            clients.push(x);
        }
        proof {
            taken = taken + 1;
        }
    }
    proof {
        assert(all.take(taken) =~= all);
    }
    (nodes, clients)
}

} // verus!
