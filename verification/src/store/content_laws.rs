//! What a record's content and a resource's definition are.

use crate::money::amount::{format_text, AmountView};
use crate::store::column_laws::{completeness_word, posting_word, sign_word, state_word};
use crate::store::hash::{content_digest, content_text, fingerprint_of, hex_text, sha256};
use crate::wire::json::{hex_digit, quoted};
use crate::wire::record::{DescriptorView, ObservationView};
use vstd::prelude::*;
use vstd::utf8::encode_utf8;

verus! {

/// A text that may be missing.
pub open spec fn text_or_null(s: Option<Seq<char>>) -> Seq<char> {
    if s is Some {
        quoted(s->0)
    } else {
        "null"@
    }
}

/// An amount, to the last digit.
pub open spec fn amount_object(a: AmountView) -> Seq<char> {
    "{\"amount\":"@ + quoted(format_text(a.units, a.scale)) + ",\"asset\":"@ + quoted(a.asset)
        + "}"@
}

/// A record's content is every field that the adapter authored, under its own name, in the
/// order of the names.
pub proof fn law_what_a_records_content_is(o: ObservationView)
    ensures
        content_text(o) == "{\"amount\":"@ + amount_object(o.amount) + ",\"completeness\":"@
            + quoted(completeness_word(o.provenance.completeness)) + ",\"description\":"@ + quoted(
            o.description,
        ) + ",\"effective_at\":"@ + text_or_null(o.provenance.effective_at) + ",\"fees\":"@ + (
        if o.fees is Some {
            amount_object(o.fees->0)
        } else {
            "null"@
        }) + ",\"local_id\":"@ + quoted(o.local_id) + ",\"observed_at\":"@ + quoted(
            o.provenance.observed_at,
        ) + ",\"posting\":"@ + quoted(posting_word(o.posting)) + ",\"provider_extra\":"@
            + o.provider_extra + ",\"provider_id\":"@ + text_or_null(o.provider_id)
            + ",\"raw_sign\":"@ + quoted(sign_word(o.raw_sign)) + ",\"resource_id\":"@ + quoted(
            o.resource_id,
        ) + ",\"state\":"@ + quoted(state_word(o.state)) + ",\"supersedes_provider_id\":"@
            + text_or_null(o.supersedes_provider_id) + ",\"surface\":"@ + quoted(o.surface)
            + ",\"tombstone_reason\":"@ + text_or_null(o.tombstone_reason) + "}"@,
        content_digest(o) == hex_text(sha256(encode_utf8(content_text(o)))),
{
}

/// A resource's definition is its kind and what the provider says of it besides, which is
/// nothing where it says nothing.
pub proof fn law_what_a_resources_definition_is(d: DescriptorView)
    ensures
        fingerprint_of(d) == hex_text(
            sha256(
                encode_utf8(
                    "{\"kind\":"@ + quoted(d.kind) + ",\"provider_extra\":"@ + (
                    if d.provider_extra is Some {
                        d.provider_extra->0
                    } else {
                        "{}"@
                    }) + "}"@,
                ),
            ),
        ),
{
}

/// To rename a resource, or to read it from elsewhere, does not change what it is.
pub proof fn law_a_renamed_resource_is_the_same(a: DescriptorView, b: DescriptorView)
    requires
        a.kind == b.kind,
        a.provider_extra == b.provider_extra,
    ensures
        fingerprint_of(a) == fingerprint_of(b),
{
}

/// A hash is written byte by byte, each with its high digit first.
pub proof fn law_a_hash_is_written_in_order(bytes: Seq<u8>, b: u8)
    ensures
        hex_text(Seq::empty()).len() == 0,
        hex_text(bytes.push(b)) == hex_text(bytes).push(hex_digit(b as nat / 16)).push(
            hex_digit(b as nat % 16),
        ),
{
    assert(bytes.push(b).drop_last() =~= bytes);
}

} // verus!
