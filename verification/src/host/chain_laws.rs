//! What a record's chain is made of, and in what order.

use crate::host::fold::{
    chain_of, insertion_point, law_chain_is_ordered, lemma_insertion_point, ChainKey,
    RevisionedView,
};
use crate::text::{bytes_before, lemma_text_order, text_before};
use crate::wire::record::ObservationView;
use vstd::prelude::*;
use vstd::utf8::encode_utf8;

verus! {

/// A text comes before another if it is a proper beginning of it, or has the smaller byte
/// where the two first differ.
pub proof fn law_bytewise_order(a: Seq<u8>, b: Seq<u8>, n: int)
    requires
        0 <= n <= a.len(),
        n <= b.len(),
        forall|i: int| 0 <= i < n ==> #[trigger] a[i] == b[i],
        n < a.len() && n < b.len() ==> a[n] != b[n],
    ensures
        bytes_before(a, b) <==> n < b.len() && (n == a.len() || a[n] < b[n]),
    decreases n,
{
    if n > 0 {
        let (x, y) = (a.skip(1), b.skip(1));
        assert(a[0] == b[0]);
        assert forall|i: int| 0 <= i < n - 1 implies #[trigger] x[i] == y[i] by {
            assert(a[i + 1] == b[i + 1]);
        }
        if n < a.len() && n < b.len() {
            assert(x[n - 1] == a[n] && y[n - 1] == b[n]);
        }
        law_bytewise_order(x, y, n - 1);
    }
}

/// Texts are ordered by their bytes.
pub proof fn law_texts_are_ordered_by_their_bytes(a: Seq<char>, b: Seq<char>, n: int)
    requires
        0 <= n <= encode_utf8(a).len(),
        n <= encode_utf8(b).len(),
        forall|i: int| 0 <= i < n ==> #[trigger] encode_utf8(a)[i] == encode_utf8(b)[i],
        n < encode_utf8(a).len() && n < encode_utf8(b).len() ==> encode_utf8(a)[n] != encode_utf8(
            b,
        )[n],
    ensures
        text_before(a, b) <==> n < encode_utf8(b).len() && (n == encode_utf8(a).len()
            || encode_utf8(a)[n] < encode_utf8(b)[n]),
{
    law_bytewise_order(encode_utf8(a), encode_utf8(b), n);
}

/// The arrivals of a record: those from its adapter under its id.
pub open spec fn of_record(
    arrivals: Seq<ObservationView>,
    adapter_id: Seq<char>,
    local_id: Seq<char>,
) -> Seq<ObservationView> {
    arrivals.filter(
        |o: ObservationView|
            o.provenance.adapter_id == adapter_id && o.local_id == local_id,
    )
}

/// A chain has an entry for each of its record's arrivals, and for no other; its revision
/// says which arrival it was.
pub proof fn law_a_chain_has_every_arrival_of_its_record(
    arrivals: Seq<ObservationView>,
    adapter_id: Seq<char>,
    local_id: Seq<char>,
)
    ensures
        ({
            let chain = chain_of(arrivals, ChainKey { adapter_id, local_id });
            let own = of_record(arrivals, adapter_id, local_id);
            &&& chain.len() == own.len()
            &&& forall|n: int|
                0 <= n < own.len() ==> chain.contains(
                    RevisionedView { revision: (n + 1) as nat, observation: #[trigger] own[n] },
                )
        }),
    decreases arrivals.len(),
{
    reveal(Seq::filter);
    let key = ChainKey { adapter_id, local_id };
    if arrivals.len() > 0 {
        let front = arrivals.drop_last();
        let new = arrivals.last();
        law_a_chain_has_every_arrival_of_its_record(front, adapter_id, local_id);
        let was = chain_of(front, key);
        let chain = chain_of(arrivals, key);
        let before = of_record(front, adapter_id, local_id);
        let own = of_record(arrivals, adapter_id, local_id);
        if new.provenance.adapter_id == adapter_id && new.local_id == local_id {
            let p = insertion_point(was, new) as int;
            lemma_insertion_point(was, new);
            assert(own =~= before.push(new));
            assert forall|n: int| 0 <= n < own.len() implies chain.contains(
                RevisionedView { revision: (n + 1) as nat, observation: #[trigger] own[n] },
            ) by {
                let entry = RevisionedView { revision: (n + 1) as nat, observation: own[n] };
                if n < before.len() {
                    assert(own[n] == before[n]);
                    assert(was.contains(entry));
                    let k = choose|k: int| 0 <= k < was.len() && was[k] == entry;
                    assert(chain[if k < p {
                        k
                    } else {
                        k + 1
                    }] == entry);
                } else {
                    assert(chain[p] == entry);
                }
            }
        } else {
            assert(own =~= before);
        }
    }
}

/// A chain is in the order in which the host received its entries; of those received at
/// once, in the order of their surfaces, and then in that of their arrival.
pub proof fn law_a_chain_is_in_the_order_of_receipt(
    arrivals: Seq<ObservationView>,
    key: ChainKey,
    j: int,
    k: int,
)
    requires
        0 <= j < k < chain_of(arrivals, key).len(),
    ensures
        ({
            let a = chain_of(arrivals, key)[j];
            let b = chain_of(arrivals, key)[k];
            let (p, q) = (
                a.observation.provenance.received_at,
                b.observation.provenance.received_at,
            );
            let (x, y) = (a.observation.surface, b.observation.surface);
            ||| text_before(p, q)
            ||| p == q && text_before(x, y)
            ||| p == q && x == y && a.revision < b.revision
        }),
{
    law_chain_is_ordered(arrivals, key);
    let a = chain_of(arrivals, key)[j];
    let b = chain_of(arrivals, key)[k];
    let (p, q) = (a.observation.provenance.received_at, b.observation.provenance.received_at);
    lemma_text_order(p, q, p);
    lemma_text_order(q, p, q);
    lemma_text_order(a.observation.surface, b.observation.surface, a.observation.surface);
    lemma_text_order(b.observation.surface, a.observation.surface, b.observation.surface);
}

} // verus!
