//! A model of the append-only subscription store, and the laws the
//! endpoint obeys over it.
//!
//! The real table lives in the database the surrounding program owns; this
//! module models it as the sequence of rows inserted so far, and states the
//! endpoint as one transition on that sequence: decode the submission, then
//! either append exactly one row and answer 200, or leave the store alone
//! and answer 400 or 500.

use crate::form::{DecodeError, FormModel};
use crate::response::{
    response_bad_request, response_ok, response_server_error, ResponseModel,
};
use crate::subscribe::spec_decode_request;
use vstd::prelude::*;

verus! {

/// One persisted subscription row.
pub ghost struct Record {
    pub id: Seq<u8>,
    pub email: Seq<u8>,
    pub name: Seq<u8>,
    pub subscribed_at: int,
}

/// One submission as the endpoint sees it, together with the identifier
/// and timestamp generated for it.
pub ghost struct Submission {
    pub content_type: Option<Seq<u8>>,
    pub body: Seq<u8>,
    pub id: Seq<u8>,
    pub at: int,
}

/// What a submission decodes to.
pub open spec fn decoded_form(s: Submission) -> Result<FormModel, DecodeError> {
    spec_decode_request(s.content_type, s.body)
}

/// The row a well-formed submission is stored as.
pub open spec fn record_of(s: Submission) -> Record {
    let f = decoded_form(s)->Ok_0;
    Record { id: s.id, email: f.email, name: f.name, subscribed_at: s.at }
}

/// The subscription endpoint as one transition on the store: the new store
/// and the response sent back.
pub open spec fn handle_subscription(store: Seq<Record>, s: Submission, insert_ok: bool) -> (
    Seq<Record>,
    ResponseModel,
) {
    match decoded_form(s) {
        Err(_) => (store, response_bad_request()),
        Ok(f) => {
            if insert_ok {
                (store.push(record_of(s)), response_ok())
            } else {
                (store, response_server_error())
            }
        },
    }
}

/// A well-formed submission whose insert succeeds is answered 200 with an
/// empty body, and the store afterwards is the old store with exactly one
/// new row at the end, carrying the decoded name and email, the generated
/// identifier and the captured time; every earlier row is untouched.
pub proof fn lemma_valid_submission_stores_row(store: Seq<Record>, s: Submission)
    requires
        decoded_form(s) is Ok,
    ensures
        ({
            let (store2, resp) = handle_subscription(store, s, true);
            let f = decoded_form(s)->Ok_0;
            &&& resp == response_ok()
            &&& resp.status == 200 && resp.body.len() == 0
            &&& store2.len() == store.len() + 1
            &&& store2.last() == Record {
                id: s.id,
                email: f.email,
                name: f.name,
                subscribed_at: s.at,
            }
            &&& store2.take(store.len() as int) == store
        }),
{
    let (store2, resp) = handle_subscription(store, s, true);
    assert(store2.take(store.len() as int) =~= store);
}

/// A submission that does not decode — wrong content type, undecodable
/// body, a repeated field, or a name, email or both missing or empty — is
/// answered 400 with the diagnostic body, and the store is exactly what it
/// was, whatever the database would have done.
pub proof fn lemma_rejected_submission_leaves_store(
    store: Seq<Record>,
    s: Submission,
    insert_ok: bool,
)
    requires
        decoded_form(s) is Err,
    ensures
        handle_subscription(store, s, insert_ok) == (store, response_bad_request()),
{
}

/// A well-formed submission whose insert fails is answered 500 with the
/// diagnostic body and stores nothing.
pub proof fn lemma_failed_insert_leaves_store(store: Seq<Record>, s: Submission)
    requires
        decoded_form(s) is Ok,
    ensures
        handle_subscription(store, s, false) == (store, response_server_error()),
{
}

/// The store after a submission has been replayed `n` times.
pub open spec fn replay(store: Seq<Record>, s: Submission, insert_ok: bool, n: nat) -> Seq<Record>
    decreases n,
{
    if n == 0 {
        store
    } else {
        handle_subscription(replay(store, s, insert_ok, (n - 1) as nat), s, insert_ok).0
    }
}

/// Repeating an invalid submission never mutates stored data: however many
/// times it is replayed, the store is exactly what it was.
pub proof fn lemma_invalid_replay_changes_nothing(
    store: Seq<Record>,
    s: Submission,
    insert_ok: bool,
    n: nat,
)
    requires
        decoded_form(s) is Err,
    ensures
        replay(store, s, insert_ok, n) == store,
    decreases n,
{
    if n > 0 {
        lemma_invalid_replay_changes_nothing(store, s, insert_ok, (n - 1) as nat);
    }
}

/// The store after a batch of submissions has run in some serial order,
/// every insert succeeding.
pub open spec fn run_batch(store: Seq<Record>, subs: Seq<Submission>) -> Seq<Record>
    decreases subs.len(),
{
    if subs.len() == 0 {
        store
    } else {
        run_batch(handle_subscription(store, subs[0], true).0, subs.skip(1))
    }
}

/// No write is lost: when every submission of a batch is well formed and
/// every insert succeeds, the store afterwards is the old store followed by
/// one row per submission, in order — whatever order the batch ran in, each
/// submission's row is there.
pub proof fn lemma_batch_stores_every_row(store: Seq<Record>, subs: Seq<Submission>)
    requires
        forall|j: int| 0 <= j < subs.len() ==> decoded_form(#[trigger] subs[j]) is Ok,
    ensures
        run_batch(store, subs) == store + subs.map_values(|s: Submission| record_of(s)),
    decreases subs.len(),
{
    let rows = subs.map_values(|s: Submission| record_of(s));
    if subs.len() == 0 {
        assert(store + rows =~= store);
    } else {
        let store1 = store.push(record_of(subs[0]));
        assert(forall|j: int|
            0 <= j < subs.skip(1).len() ==> decoded_form(#[trigger] subs.skip(1)[j]) is Ok);
        lemma_batch_stores_every_row(store1, subs.skip(1));
        assert(store1 + subs.skip(1).map_values(|s: Submission| record_of(s)) =~= store + rows);
    }
}

/// Simultaneous submissions with distinct emails yield distinct rows: run
/// in any serial order, the batch appends one row per submission, and the
/// appended rows — and their generated identifiers, when those are distinct
/// — are pairwise distinct.
pub proof fn lemma_batch_distinct_emails_distinct_rows(store: Seq<Record>, subs: Seq<Submission>)
    requires
        forall|j: int| 0 <= j < subs.len() ==> decoded_form(#[trigger] subs[j]) is Ok,
        forall|j: int, k: int|
            0 <= j < k < subs.len() ==> decoded_form(subs[j])->Ok_0.email != decoded_form(
                subs[k],
            )->Ok_0.email,
    ensures
        ({
            let store2 = run_batch(store, subs);
            &&& store2.len() == store.len() + subs.len()
            &&& forall|j: int|
                0 <= j < subs.len() ==> store2[store.len() + j] == record_of(#[trigger] subs[j])
            &&& forall|j: int, k: int|
                store.len() <= j < k < store2.len() ==> store2[j] != store2[k]
        }),
{
    lemma_batch_stores_every_row(store, subs);
    let store2 = run_batch(store, subs);
    assert forall|j: int, k: int|
        store.len() <= j < k < store2.len() implies store2[j] != store2[k] by {
        let a = j - store.len();
        let b = k - store.len();
        assert(store2[j] == record_of(subs[a]));
        assert(store2[k] == record_of(subs[b]));
        assert(decoded_form(subs[a])->Ok_0.email != decoded_form(subs[b])->Ok_0.email);
    }
}

/// Distinct generated identifiers make the appended rows carry distinct
/// identifiers: each batch row's identifier is its submission's.
pub proof fn lemma_batch_distinct_ids(store: Seq<Record>, subs: Seq<Submission>)
    requires
        forall|j: int| 0 <= j < subs.len() ==> decoded_form(#[trigger] subs[j]) is Ok,
        forall|j: int, k: int| 0 <= j < k < subs.len() ==> subs[j].id != subs[k].id,
    ensures
        ({
            let store2 = run_batch(store, subs);
            &&& store2.len() == store.len() + subs.len()
            &&& forall|j: int, k: int|
                store.len() <= j < k < store2.len() ==> store2[j].id != store2[k].id
        }),
{
    lemma_batch_stores_every_row(store, subs);
    let store2 = run_batch(store, subs);
    assert forall|j: int, k: int|
        store.len() <= j < k < store2.len() implies store2[j].id != store2[k].id by {
        let a = j - store.len();
        let b = k - store.len();
        assert(store2[j] == record_of(subs[a]));
        assert(store2[k] == record_of(subs[b]));
    }
}

} // verus!

