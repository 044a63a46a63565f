//! Content hashes: SHA-256 over what the adapter authored, and nothing else.

use crate::money::amount::{format_text, Amount, AmountView};
use crate::money::laws::law_printed_amount_parses_to_itself;
use crate::wire::json::{
    hex_char, hex_digit, law_quoted_text_delimits_itself, law_quoted_text_is_read_from_behind,
    push_quoted, quoted,
};
use crate::wire::record::{
    law_spellings_are_distinct, Observation, ObservationView, ProvenanceView,
    DescriptorView, ResourceDescriptor,
};
use sha2::{Digest, Sha256};
use vstd::prelude::*;
use vstd::utf8::{encode_utf8, encode_utf8_decode_utf8};

verus! {

/// The SHA-256 digest of a byte string.
pub uninterp spec fn sha256(bytes: Seq<u8>) -> Seq<u8>;

/// `sha2::Sha256` over the bytes: their digest, which is 32 bytes long.
#[verifier::external_body]
fn digest(bytes: &[u8]) -> (r: Vec<u8>)
    ensures
        r@ == sha256(bytes@),
        r@.len() == 32,
{
    let mut hasher = Sha256::new();
    hasher.update(bytes);
    hasher.finalize().to_vec()
}

/// Two lowercase hexadecimal digits for each byte.
pub open spec fn hex_text(bytes: Seq<u8>) -> Seq<char>
    decreases bytes.len(),
{
    if bytes.len() == 0 {
        Seq::empty()
    } else {
        hex_text(bytes.drop_last()).push(hex_digit(bytes.last() as nat / 16)).push(
            hex_digit(bytes.last() as nat % 16),
        )
    }
}

/// Whether a text is a SHA-256 in lowercase hexadecimal.
pub open spec fn is_hash(s: Seq<char>) -> bool {
    s.len() == 64 && forall|i: int|
        0 <= i < s.len() ==> ('0' <= #[trigger] s[i] <= '9' || 'a' <= s[i] <= 'f')
}

proof fn lemma_hex_digit(n: nat)
    requires
        n < 16,
    ensures
        '0' <= hex_digit(n) <= '9' || 'a' <= hex_digit(n) <= 'f',
        forall|m: nat| m < 16 && #[trigger] hex_digit(m) == hex_digit(n) ==> m == n,
{
    assert forall|m: nat| m < 16 && #[trigger] hex_digit(m) == hex_digit(n) implies m == n by {
        assert(hex_digit(m) as u32 == if m < 10 {
            48 + m
        } else {
            87 + m
        });
        assert(hex_digit(n) as u32 == if n < 10 {
            48 + n
        } else {
            87 + n
        });
    }
}

/// Bytes in hexadecimal: two digits each.
proof fn lemma_hex_text(bytes: Seq<u8>)
    ensures
        hex_text(bytes).len() == 2 * bytes.len(),
        forall|i: int|
            0 <= i < hex_text(bytes).len() ==> ('0' <= #[trigger] hex_text(bytes)[i] <= '9' || 'a'
                <= hex_text(bytes)[i] <= 'f'),
    decreases bytes.len(),
{
    if bytes.len() > 0 {
        lemma_hex_text(bytes.drop_last());
        let b: u8 = bytes.last();
        lemma_hex_digit(b as nat / 16);
        lemma_hex_digit(b as nat % 16);
        let front = hex_text(bytes.drop_last());
        assert forall|i: int| 0 <= i < hex_text(bytes).len() implies ('0'
            <= #[trigger] hex_text(bytes)[i] <= '9' || 'a' <= hex_text(bytes)[i] <= 'f') by {
            if i < front.len() {
                assert(hex_text(bytes)[i] == front[i]);
            }
        }
    }
}

/// Different bytes have different digits.
proof fn lemma_hex_text_unique(x: Seq<u8>, y: Seq<u8>)
    requires
        hex_text(x) == hex_text(y),
    ensures
        x == y,
    decreases x.len(),
{
    lemma_hex_text(x);
    lemma_hex_text(y);
    if x.len() == 0 {
        assert(x =~= y);
    } else {
        let (a, b): (u8, u8) = (x.last(), y.last());
        let (p, q) = (hex_text(x.drop_last()), hex_text(y.drop_last()));
        let n = p.len() as int;
        lemma_hex_text(x.drop_last());
        lemma_hex_text(y.drop_last());
        assert(p =~= hex_text(x).take(n));
        assert(q =~= hex_text(y).take(n));
        assert(hex_text(x)[n] == hex_digit(a as nat / 16));
        assert(hex_text(y)[n] == hex_digit(b as nat / 16));
        assert(hex_text(x)[n + 1] == hex_digit(a as nat % 16));
        assert(hex_text(y)[n + 1] == hex_digit(b as nat % 16));
        lemma_hex_digit(b as nat / 16);
        lemma_hex_digit(b as nat % 16);
        assert(a == b);
        lemma_hex_text_unique(x.drop_last(), y.drop_last());
        assert(x =~= x.drop_last().push(a));
        assert(y =~= y.drop_last().push(b));
    }
}

/// Writes bytes in lowercase hexadecimal.
pub fn hex(bytes: &[u8]) -> (r: String)
    ensures
        r@ == hex_text(bytes@),
{
    let mut out = String::new();
    let mut i: usize = 0;
    while i < bytes.len()
        invariant
            i <= bytes@.len(),
            out@ == hex_text(bytes@.take(i as int)),
        decreases bytes@.len() - i,
    {
        proof {
            assert(bytes@.take(i + 1).drop_last() =~= bytes@.take(i as int));
        }
        out.push(hex_char(bytes[i] / 16));
        out.push(hex_char(bytes[i] % 16));
        i = i + 1;
    }
    proof {
        assert(bytes@.take(bytes@.len() as int) =~= bytes@);
    }
    out
}

/// The lowercase hexadecimal SHA-256 of bytes.
pub fn sha256_hex(bytes: &[u8]) -> (r: String)
    ensures
        r@ == hex_text(sha256(bytes@)),
        is_hash(r@),
{
    let bytes = digest(bytes);
    proof {
        lemma_hex_text(bytes@);
    }
    hex(bytes.as_slice())
}

/// An optional text in JSON.
pub open spec fn opt_json(s: Option<Seq<char>>) -> Seq<char> {
    match s {
        Some(s) => quoted(s),
        None => "null"@,
    }
}

/// An optional amount in JSON: its exact text, never a number.
pub open spec fn money_json(a: Option<AmountView>) -> Seq<char> {
    match a {
        Some(a) => "{\"amount\":"@ + quoted(format_text(a.units, a.scale)) + ",\"asset\":"@
            + quoted(a.asset) + "}"@,
        None => "null"@,
    }
}

/// The canonical text of what the adapter authored of a record: an object with
/// its keys in order. What the host stamps differs on every read and is not in
/// it; neither is who the adapter and the provider are.
pub open spec fn content_text(o: ObservationView) -> Seq<char> {
    "{\"amount\":"@ + money_json(Some(o.amount)) + ",\"completeness\":"@ + quoted(
        o.provenance.completeness.spec_spelling(),
    ) + ",\"description\":"@ + quoted(o.description) + ",\"effective_at\":"@ + opt_json(
        o.provenance.effective_at,
    ) + ",\"fees\":"@ + money_json(o.fees) + ",\"local_id\":"@ + quoted(o.local_id)
        + ",\"observed_at\":"@ + quoted(o.provenance.observed_at) + ",\"posting\":"@ + quoted(
        o.posting.spec_spelling(),
    ) + ",\"provider_extra\":"@ + o.provider_extra + ",\"provider_id\":"@ + opt_json(o.provider_id)
        + ",\"raw_sign\":"@ + quoted(o.raw_sign.spec_spelling()) + ",\"resource_id\":"@ + quoted(
        o.resource_id,
    ) + ",\"state\":"@ + quoted(o.state.spec_spelling()) + ",\"supersedes_provider_id\":"@
        + opt_json(o.supersedes_provider_id) + ",\"surface\":"@ + quoted(o.surface)
        + ",\"tombstone_reason\":"@ + opt_json(o.tombstone_reason) + "}"@
}

/// The content hash of a record.
pub open spec fn content_digest(o: ObservationView) -> Seq<char> {
    hex_text(sha256(encode_utf8(content_text(o))))
}

fn push_opt(out: &mut String, s: &Option<String>)
    ensures
        final(out)@ == old(out)@ + opt_json(crate::text::opt_view(*s)),
{
    match s {
        Some(s) => push_quoted(out, s.as_str()),
        None => out.append("null"),
    }
}

fn push_money(out: &mut String, a: &Amount)
    ensures
        final(out)@ == old(out)@ + money_json(Some(a@)),
{
    let ghost before = out@;
    out.append("{\"amount\":");
    push_quoted(out, a.to_string().as_str());
    out.append(",\"asset\":");
    push_quoted(out, a.asset().as_str());
    out.append("}");
    proof {
        assert(out@ =~= before + money_json(Some(a@)));
    }
}

fn push_opt_money(out: &mut String, a: &Option<Amount>)
    ensures
        final(out)@ == old(out)@ + money_json(crate::wire::record::opt_amount_view(*a)),
{
    match a {
        Some(a) => push_money(out, a),
        None => out.append("null"),
    }
}

/// Writes the canonical text of a record's content.
fn content_json(o: &Observation) -> (r: String)
    ensures
        r@ == content_text(o@),
{
    let mut out = "{\"amount\":".to_owned();
    push_money(&mut out, &o.amount);
    out.append(",\"completeness\":");
    push_quoted(&mut out, o.provenance.completeness.spelling());
    out.append(",\"description\":");
    push_quoted(&mut out, o.description.as_str());
    out.append(",\"effective_at\":");
    match &o.provenance.effective_at {
        Some(at) => push_quoted(&mut out, at.as_str()),
        None => out.append("null"),
    }
    out.append(",\"fees\":");
    push_opt_money(&mut out, &o.fees);
    out.append(",\"local_id\":");
    push_quoted(&mut out, o.local_id.as_str());
    out.append(",\"observed_at\":");
    push_quoted(&mut out, o.provenance.observed_at.as_str());
    out.append(",\"posting\":");
    push_quoted(&mut out, o.posting.spelling());
    out.append(",\"provider_extra\":");
    out.append(o.provider_extra.as_str());
    out.append(",\"provider_id\":");
    push_opt(&mut out, &o.provider_id);
    out.append(",\"raw_sign\":");
    push_quoted(&mut out, o.raw_sign.spelling());
    out.append(",\"resource_id\":");
    push_quoted(&mut out, o.resource_id.as_str());
    out.append(",\"state\":");
    push_quoted(&mut out, o.state.spelling());
    out.append(",\"supersedes_provider_id\":");
    push_opt(&mut out, &o.supersedes_provider_id);
    out.append(",\"surface\":");
    push_quoted(&mut out, o.surface.as_str());
    out.append(",\"tombstone_reason\":");
    push_opt(&mut out, &o.tombstone_reason);
    out.append("}");
    out
}

/// The lowercase hexadecimal SHA-256 of what the adapter authored of a record.
pub fn content_hash(observation: &Observation) -> (r: String)
    ensures
        r@ == content_digest(observation@),
        is_hash(r@),
{
    let text = content_json(observation);
    sha256_hex(text.as_str().as_bytes())
}

/// Whether two records agree in everything that the adapter authored.
pub open spec fn same_content(a: ObservationView, b: ObservationView) -> bool {
    b == (ObservationView {
        provenance: ProvenanceView {
            observed_at: a.provenance.observed_at,
            effective_at: a.provenance.effective_at,
            completeness: a.provenance.completeness,
            ..b.provenance
        },
        ..a
    })
}

/// What the host stamps is no content, and neither is who read the record from
/// where: two records that the adapter authored alike have one content hash.
pub proof fn law_host_stamps_are_no_content(a: ObservationView, b: ObservationView)
    requires
        same_content(a, b),
    ensures
        content_digest(a) == content_digest(b),
{
}

/// Cuts the same text off the front of two equal ones.
proof fn lemma_cut(front: Seq<char>, x: Seq<char>, y: Seq<char>)
    requires
        front + x == front + y,
    ensures
        x == y,
{
    assert(x =~= (front + x).skip(front.len() as int));
    assert(y =~= (front + y).skip(front.len() as int));
}

proof fn lemma_opt_json_unique(
    s: Option<Seq<char>>,
    t: Option<Seq<char>>,
    x: Seq<char>,
    y: Seq<char>,
)
    requires
        opt_json(s) + x == opt_json(t) + y,
    ensures
        s == t,
        x == y,
{
    reveal_strlit("null");
    let (p, q) = (opt_json(s) + x, opt_json(t) + y);
    assert(p[0] == opt_json(s)[0] && q[0] == opt_json(t)[0]);
    match (s, t) {
        (Some(s), Some(t)) => {
            law_quoted_text_delimits_itself(s, t, x, y);
        },
        (None, None) => {
            lemma_cut("null"@, x, y);
        },
        (Some(s), None) => {
            assert(quoted(s)[0] == '"');
        },
        (None, Some(t)) => {
            assert(quoted(t)[0] == '"');
        },
    }
}

proof fn lemma_money_json_unique(
    s: Option<AmountView>,
    t: Option<AmountView>,
    x: Seq<char>,
    y: Seq<char>,
)
    requires
        money_json(s) + x == money_json(t) + y,
        s matches Some(a) ==> a.within_limits(),
        t matches Some(a) ==> a.within_limits(),
    ensures
        s == t,
        x == y,
{
    reveal_strlit("null");
    reveal_strlit("{\"amount\":");
    let (p, q) = (money_json(s) + x, money_json(t) + y);
    assert(p[0] == money_json(s)[0] && q[0] == money_json(t)[0]);
    match (s, t) {
        (Some(a), Some(b)) => {
            let (fa, fb) = (format_text(a.units, a.scale), format_text(b.units, b.scale));
            let (ra, rb) = (quoted(a.asset) + ("}"@ + x), quoted(b.asset) + ("}"@ + y));
            assert(p =~= "{\"amount\":"@ + (quoted(fa) + (",\"asset\":"@ + ra)));
            assert(q =~= "{\"amount\":"@ + (quoted(fb) + (",\"asset\":"@ + rb)));
            lemma_cut(
                "{\"amount\":"@,
                quoted(fa) + (",\"asset\":"@ + ra),
                quoted(fb) + (",\"asset\":"@ + rb),
            );
            law_quoted_text_delimits_itself(fa, fb, ",\"asset\":"@ + ra, ",\"asset\":"@ + rb);
            lemma_cut(",\"asset\":"@, ra, rb);
            law_quoted_text_delimits_itself(a.asset, b.asset, "}"@ + x, "}"@ + y);
            lemma_cut("}"@, x, y);
            law_printed_amount_parses_to_itself(a);
            law_printed_amount_parses_to_itself(b);
        },
        (None, None) => {
            lemma_cut("null"@, x, y);
        },
        _ => {},
    }
}

/// Whatever the adapter authored is content: two records with one content text
/// agree in every authored field, down to the scale of their amounts.
pub proof fn law_content_text_determines_the_content(a: ObservationView, b: ObservationView)
    requires
        content_text(a) == content_text(b),
        a.amount.within_limits(),
        b.amount.within_limits(),
        a.fees matches Some(f) ==> f.within_limits(),
        b.fees matches Some(f) ==> f.within_limits(),
    ensures
        same_content(a, b),
{
    law_spellings_are_distinct();
    let (a9, b9) = (tail_provider(a), tail_provider(b));
    let (a8, b8) = (tail_extra(a), tail_extra(b));
    let (a7, b7) = (tail_posting(a), tail_posting(b));
    let (a6, b6) = (tail_observed(a), tail_observed(b));
    let (a5, b5) = (tail_local(a), tail_local(b));
    let (a4, b4) = (tail_fees(a), tail_fees(b));
    let (a3, b3) = (tail_effective(a), tail_effective(b));
    let (a2, b2) = (tail_description(a), tail_description(b));
    let (a1, b1) = (tail_completeness(a), tail_completeness(b));
    lemma_content_tails(a);
    lemma_content_tails(b);
    lemma_cut("{\"amount\":"@, money_json(Some(a.amount)) + a1, money_json(Some(b.amount)) + b1);
    lemma_money_json_unique(Some(a.amount), Some(b.amount), a1, b1);
    lemma_cut(
        ",\"completeness\":"@,
        quoted(a.provenance.completeness.spec_spelling()) + a2,
        quoted(b.provenance.completeness.spec_spelling()) + b2,
    );
    law_quoted_text_delimits_itself(
        a.provenance.completeness.spec_spelling(),
        b.provenance.completeness.spec_spelling(),
        a2,
        b2,
    );
    lemma_cut(",\"description\":"@, quoted(a.description) + a3, quoted(b.description) + b3);
    law_quoted_text_delimits_itself(a.description, b.description, a3, b3);
    lemma_cut(
        ",\"effective_at\":"@,
        opt_json(a.provenance.effective_at) + a4,
        opt_json(b.provenance.effective_at) + b4,
    );
    lemma_opt_json_unique(a.provenance.effective_at, b.provenance.effective_at, a4, b4);
    lemma_cut(",\"fees\":"@, money_json(a.fees) + a5, money_json(b.fees) + b5);
    lemma_money_json_unique(a.fees, b.fees, a5, b5);
    lemma_cut(",\"local_id\":"@, quoted(a.local_id) + a6, quoted(b.local_id) + b6);
    law_quoted_text_delimits_itself(a.local_id, b.local_id, a6, b6);
    lemma_cut(
        ",\"observed_at\":"@,
        quoted(a.provenance.observed_at) + a7,
        quoted(b.provenance.observed_at) + b7,
    );
    law_quoted_text_delimits_itself(a.provenance.observed_at, b.provenance.observed_at, a7, b7);
    lemma_cut(
        ",\"posting\":"@,
        quoted(a.posting.spec_spelling()) + a8,
        quoted(b.posting.spec_spelling()) + b8,
    );
    law_quoted_text_delimits_itself(
        a.posting.spec_spelling(),
        b.posting.spec_spelling(),
        a8,
        b8,
    );
    lemma_cut(",\"provider_extra\":"@, a.provider_extra + a9, b.provider_extra + b9);
    lemma_read_from_behind(a, b);
}

/// The part of the content text from the extra fields on is read from behind, for
/// nothing says how those delimit themselves.
proof fn lemma_read_from_behind(a: ObservationView, b: ObservationView)
    requires
        a.provider_extra + tail_provider(a) == b.provider_extra + tail_provider(b),
    ensures
        a.provider_extra == b.provider_extra,
        a.provider_id == b.provider_id,
        a.raw_sign == b.raw_sign,
        a.resource_id == b.resource_id,
        a.state == b.state,
        a.supersedes_provider_id == b.supersedes_provider_id,
        a.surface == b.surface,
        a.tombstone_reason == b.tombstone_reason,
{
    law_spellings_are_distinct();
    lemma_heads(a);
    lemma_heads(b);
    let (a1, b1) = (head_provider(a), head_provider(b));
    let (a2, b2) = (head_sign(a), head_sign(b));
    let (a3, b3) = (head_resource(a), head_resource(b));
    let (a4, b4) = (head_state(a), head_state(b));
    let (a5, b5) = (head_supersedes(a), head_supersedes(b));
    let (a6, b6) = (head_surface(a), head_surface(b));
    let (a7, b7) = (head_tombstone(a), head_tombstone(b));
    lemma_cut_behind(a7 + opt_json(a.tombstone_reason), b7 + opt_json(b.tombstone_reason), "}"@);
    lemma_opt_json_behind(a7, b7, a.tombstone_reason, b.tombstone_reason);
    lemma_cut_behind(a6 + quoted(a.surface), b6 + quoted(b.surface), ",\"tombstone_reason\":"@);
    law_quoted_text_is_read_from_behind(a6, b6, a.surface, b.surface);
    lemma_cut_behind(
        a5 + opt_json(a.supersedes_provider_id),
        b5 + opt_json(b.supersedes_provider_id),
        ",\"surface\":"@,
    );
    lemma_opt_json_behind(a5, b5, a.supersedes_provider_id, b.supersedes_provider_id);
    let (sa, sb) = (a.state.spec_spelling(), b.state.spec_spelling());
    lemma_cut_behind(a4 + quoted(sa), b4 + quoted(sb), ",\"supersedes_provider_id\":"@);
    law_quoted_text_is_read_from_behind(a4, b4, sa, sb);
    lemma_cut_behind(a3 + quoted(a.resource_id), b3 + quoted(b.resource_id), ",\"state\":"@);
    law_quoted_text_is_read_from_behind(a3, b3, a.resource_id, b.resource_id);
    let (ra, rb) = (a.raw_sign.spec_spelling(), b.raw_sign.spec_spelling());
    lemma_cut_behind(a2 + quoted(ra), b2 + quoted(rb), ",\"resource_id\":"@);
    law_quoted_text_is_read_from_behind(a2, b2, ra, rb);
    lemma_cut_behind(
        a1 + opt_json(a.provider_id),
        b1 + opt_json(b.provider_id),
        ",\"raw_sign\":"@,
    );
    lemma_opt_json_behind(a1, b1, a.provider_id, b.provider_id);
    lemma_cut_behind(a.provider_extra, b.provider_extra, ",\"provider_id\":"@);
}

/// Cuts the same text off the end of two equal ones.
proof fn lemma_cut_behind(x: Seq<char>, y: Seq<char>, back: Seq<char>)
    requires
        x + back == y + back,
    ensures
        x == y,
{
    assert((x + back).len() == (y + back).len());
    assert(x =~= (x + back).take(x.len() as int));
    assert(y =~= (y + back).take(y.len() as int));
}

proof fn lemma_opt_json_behind(
    x: Seq<char>,
    y: Seq<char>,
    s: Option<Seq<char>>,
    t: Option<Seq<char>>,
)
    requires
        x + opt_json(s) == y + opt_json(t),
        x.len() > 0 && x.last() != '\\',
        y.len() > 0 && y.last() != '\\',
    ensures
        s == t,
        x == y,
{
    reveal_strlit("null");
    let (p, q) = (x + opt_json(s), y + opt_json(t));
    assert(p.last() == opt_json(s).last() && q.last() == opt_json(t).last());
    match (s, t) {
        (Some(s), Some(t)) => {
            law_quoted_text_is_read_from_behind(x, y, s, t);
        },
        (None, None) => {
            lemma_cut_behind(x, y, "null"@);
        },
        (Some(s), None) => {
            assert(quoted(s).last() == '"');
        },
        (None, Some(t)) => {
            assert(quoted(t).last() == '"');
        },
    }
}

spec fn head_provider(o: ObservationView) -> Seq<char> {
    o.provider_extra + ",\"provider_id\":"@
}

spec fn head_sign(o: ObservationView) -> Seq<char> {
    head_provider(o) + opt_json(o.provider_id) + ",\"raw_sign\":"@
}

spec fn head_resource(o: ObservationView) -> Seq<char> {
    head_sign(o) + quoted(o.raw_sign.spec_spelling()) + ",\"resource_id\":"@
}

spec fn head_state(o: ObservationView) -> Seq<char> {
    head_resource(o) + quoted(o.resource_id) + ",\"state\":"@
}

spec fn head_supersedes(o: ObservationView) -> Seq<char> {
    head_state(o) + quoted(o.state.spec_spelling()) + ",\"supersedes_provider_id\":"@
}

spec fn head_surface(o: ObservationView) -> Seq<char> {
    head_supersedes(o) + opt_json(o.supersedes_provider_id) + ",\"surface\":"@
}

spec fn head_tombstone(o: ObservationView) -> Seq<char> {
    head_surface(o) + quoted(o.surface) + ",\"tombstone_reason\":"@
}

/// The part of the content text from the extra fields on, grouped from the front;
/// before each value stands a colon.
proof fn lemma_heads(o: ObservationView)
    ensures
        o.provider_extra + tail_provider(o) == head_tombstone(o) + opt_json(o.tombstone_reason)
            + "}"@,
        head_provider(o).len() > 0 && head_provider(o).last() == ':',
        head_sign(o).len() > 0 && head_sign(o).last() == ':',
        head_resource(o).len() > 0 && head_resource(o).last() == ':',
        head_state(o).len() > 0 && head_state(o).last() == ':',
        head_supersedes(o).len() > 0 && head_supersedes(o).last() == ':',
        head_surface(o).len() > 0 && head_surface(o).last() == ':',
        head_tombstone(o).len() > 0 && head_tombstone(o).last() == ':',
{
    reveal_strlit(",\"provider_id\":");
    reveal_strlit(",\"raw_sign\":");
    reveal_strlit(",\"resource_id\":");
    reveal_strlit(",\"state\":");
    reveal_strlit(",\"supersedes_provider_id\":");
    reveal_strlit(",\"surface\":");
    reveal_strlit(",\"tombstone_reason\":");
    let (e, l1) = (o.provider_extra, ",\"provider_id\":"@);
    let (v1, l2) = (opt_json(o.provider_id), ",\"raw_sign\":"@);
    let (v2, l3) = (quoted(o.raw_sign.spec_spelling()), ",\"resource_id\":"@);
    let (v3, l4) = (quoted(o.resource_id), ",\"state\":"@);
    let (v4, l5) = (quoted(o.state.spec_spelling()), ",\"supersedes_provider_id\":"@);
    let (v5, l6) = (opt_json(o.supersedes_provider_id), ",\"surface\":"@);
    let (v6, l7) = (quoted(o.surface), ",\"tombstone_reason\":"@);
    let (v7, end) = (opt_json(o.tombstone_reason), "}"@);
    assert(e + tail_provider(o) =~= head_provider(o) + (v1 + tail_sign(o)));
    lemma_regroup_front(head_provider(o), v1, l2, v2 + tail_resource(o));
    lemma_regroup_front(head_sign(o), v2, l3, v3 + tail_state(o));
    lemma_regroup_front(head_resource(o), v3, l4, v4 + tail_supersedes(o));
    lemma_regroup_front(head_state(o), v4, l5, v5 + tail_surface(o));
    lemma_regroup_front(head_supersedes(o), v5, l6, v6 + tail_tombstone(o));
    lemma_regroup_front(head_surface(o), v6, l7, v7 + end);
    assert(head_tombstone(o) + (v7 + end) =~= head_tombstone(o) + v7 + end);
}

/// Regroups a text around one of its values.
proof fn lemma_regroup_front(h: Seq<char>, v: Seq<char>, l: Seq<char>, t: Seq<char>)
    ensures
        h + (v + (l + t)) == (h + v + l) + t,
{
    assert(h + (v + (l + t)) =~= (h + v + l) + t);
}

/// Two records that differ in anything the adapter authored have different content
/// hashes, where SHA-256 has no collision on their texts.
pub proof fn law_different_content_hashes_differently(a: ObservationView, b: ObservationView)
    requires
        !same_content(a, b),
        sha256(encode_utf8(content_text(a))) == sha256(encode_utf8(content_text(b)))
            ==> encode_utf8(content_text(a)) == encode_utf8(content_text(b)),
        a.amount.within_limits(),
        b.amount.within_limits(),
        a.fees matches Some(f) ==> f.within_limits(),
        b.fees matches Some(f) ==> f.within_limits(),
    ensures
        content_digest(a) != content_digest(b),
{
    let (x, y) = (content_text(a), content_text(b));
    if content_digest(a) == content_digest(b) {
        lemma_hex_text_unique(sha256(encode_utf8(x)), sha256(encode_utf8(y)));
        encode_utf8_decode_utf8(x);
        encode_utf8_decode_utf8(y);
        law_content_text_determines_the_content(a, b);
    }
}

spec fn tail_tombstone(o: ObservationView) -> Seq<char> {
    ",\"tombstone_reason\":"@ + (opt_json(o.tombstone_reason) + "}"@)
}

spec fn tail_surface(o: ObservationView) -> Seq<char> {
    ",\"surface\":"@ + (quoted(o.surface) + tail_tombstone(o))
}

spec fn tail_supersedes(o: ObservationView) -> Seq<char> {
    ",\"supersedes_provider_id\":"@ + (opt_json(o.supersedes_provider_id) + tail_surface(o))
}

spec fn tail_state(o: ObservationView) -> Seq<char> {
    ",\"state\":"@ + (quoted(o.state.spec_spelling()) + tail_supersedes(o))
}

spec fn tail_resource(o: ObservationView) -> Seq<char> {
    ",\"resource_id\":"@ + (quoted(o.resource_id) + tail_state(o))
}

spec fn tail_sign(o: ObservationView) -> Seq<char> {
    ",\"raw_sign\":"@ + (quoted(o.raw_sign.spec_spelling()) + tail_resource(o))
}

spec fn tail_provider(o: ObservationView) -> Seq<char> {
    ",\"provider_id\":"@ + (opt_json(o.provider_id) + tail_sign(o))
}

spec fn tail_extra(o: ObservationView) -> Seq<char> {
    ",\"provider_extra\":"@ + (o.provider_extra + tail_provider(o))
}

spec fn tail_posting(o: ObservationView) -> Seq<char> {
    ",\"posting\":"@ + (quoted(o.posting.spec_spelling()) + tail_extra(o))
}

spec fn tail_observed(o: ObservationView) -> Seq<char> {
    ",\"observed_at\":"@ + (quoted(o.provenance.observed_at) + tail_posting(o))
}

spec fn tail_local(o: ObservationView) -> Seq<char> {
    ",\"local_id\":"@ + (quoted(o.local_id) + tail_observed(o))
}

spec fn tail_fees(o: ObservationView) -> Seq<char> {
    ",\"fees\":"@ + (money_json(o.fees) + tail_local(o))
}

spec fn tail_effective(o: ObservationView) -> Seq<char> {
    ",\"effective_at\":"@ + (opt_json(o.provenance.effective_at) + tail_fees(o))
}

spec fn tail_description(o: ObservationView) -> Seq<char> {
    ",\"description\":"@ + (quoted(o.description) + tail_effective(o))
}

spec fn tail_completeness(o: ObservationView) -> Seq<char> {
    ",\"completeness\":"@ + (quoted(o.provenance.completeness.spec_spelling())
        + tail_description(o))
}

/// Regroups four texts from the back.
proof fn lemma_regroup(p: Seq<char>, l: Seq<char>, v: Seq<char>, t: Seq<char>)
    ensures
        p + l + v + t == p + (l + (v + t)),
{
    assert(p + l + v + t =~= p + (l + (v + t)));
}

/// The content text, grouped from the back.
proof fn lemma_content_tails(o: ObservationView)
    ensures
        content_text(o) == "{\"amount\":"@ + (money_json(Some(o.amount)) + tail_completeness(o)),
{
    let p0 = "{\"amount\":"@ + money_json(Some(o.amount));
    let p1 = p0 + ",\"completeness\":"@ + quoted(o.provenance.completeness.spec_spelling());
    let p2 = p1 + ",\"description\":"@ + quoted(o.description);
    let p3 = p2 + ",\"effective_at\":"@ + opt_json(o.provenance.effective_at);
    let p4 = p3 + ",\"fees\":"@ + money_json(o.fees);
    let p5 = p4 + ",\"local_id\":"@ + quoted(o.local_id);
    let p6 = p5 + ",\"observed_at\":"@ + quoted(o.provenance.observed_at);
    let p7 = p6 + ",\"posting\":"@ + quoted(o.posting.spec_spelling());
    let p8 = p7 + ",\"provider_extra\":"@ + o.provider_extra;
    let p9 = p8 + ",\"provider_id\":"@ + opt_json(o.provider_id);
    let p10 = p9 + ",\"raw_sign\":"@ + quoted(o.raw_sign.spec_spelling());
    let p11 = p10 + ",\"resource_id\":"@ + quoted(o.resource_id);
    let p12 = p11 + ",\"state\":"@ + quoted(o.state.spec_spelling());
    let p13 = p12 + ",\"supersedes_provider_id\":"@ + opt_json(o.supersedes_provider_id);
    let p14 = p13 + ",\"surface\":"@ + quoted(o.surface);
    let p15 = p14 + ",\"tombstone_reason\":"@ + opt_json(o.tombstone_reason);
    assert(content_text(o) == p15 + "}"@);
    lemma_regroup(p14, ",\"tombstone_reason\":"@, opt_json(o.tombstone_reason), "}"@);
    lemma_regroup(p13, ",\"surface\":"@, quoted(o.surface), tail_tombstone(o));
    lemma_regroup(p12, ",\"supersedes_provider_id\":"@, opt_json(o.supersedes_provider_id), tail_surface(o));
    lemma_regroup(p11, ",\"state\":"@, quoted(o.state.spec_spelling()), tail_supersedes(o));
    lemma_regroup(p10, ",\"resource_id\":"@, quoted(o.resource_id), tail_state(o));
    lemma_regroup(p9, ",\"raw_sign\":"@, quoted(o.raw_sign.spec_spelling()), tail_resource(o));
    lemma_regroup(p8, ",\"provider_id\":"@, opt_json(o.provider_id), tail_sign(o));
    lemma_regroup(p7, ",\"provider_extra\":"@, o.provider_extra, tail_provider(o));
    lemma_regroup(p6, ",\"posting\":"@, quoted(o.posting.spec_spelling()), tail_extra(o));
    lemma_regroup(p5, ",\"observed_at\":"@, quoted(o.provenance.observed_at), tail_posting(o));
    lemma_regroup(p4, ",\"local_id\":"@, quoted(o.local_id), tail_observed(o));
    lemma_regroup(p3, ",\"fees\":"@, money_json(o.fees), tail_local(o));
    lemma_regroup(p2, ",\"effective_at\":"@, opt_json(o.provenance.effective_at), tail_fees(o));
    lemma_regroup(p1, ",\"description\":"@, quoted(o.description), tail_effective(o));
    lemma_regroup(p0, ",\"completeness\":"@, quoted(o.provenance.completeness.spec_spelling()), tail_description(o));
    assert(content_text(o) == p0 + tail_completeness(o));
    assert(p0 + tail_completeness(o) =~= "{\"amount\":"@ + (money_json(Some(o.amount))
        + tail_completeness(o)));
}

/// The canonical text of a resource's definition. The label is not in it: to
/// rename a resource does not change what it is.
pub open spec fn definition_text(kind: Seq<char>, provider_extra: Option<Seq<char>>) -> Seq<char> {
    "{\"kind\":"@ + quoted(kind) + ",\"provider_extra\":"@ + (match provider_extra {
        Some(extra) => extra,
        None => "{}"@,
    }) + "}"@
}

/// The fingerprint of a resource's definition: its kind and its extra fields. Its
/// label is no part of what it is.
pub open spec fn fingerprint_of(d: DescriptorView) -> Seq<char> {
    hex_text(sha256(encode_utf8(definition_text(d.kind, d.provider_extra))))
}

/// The fingerprint of a resource's definition.
pub fn resource_fingerprint(descriptor: &ResourceDescriptor) -> (r: String)
    ensures
        r@ == fingerprint_of(descriptor@),
        is_hash(r@),
{
    let mut out = "{\"kind\":".to_owned();
    push_quoted(&mut out, descriptor.kind.as_str());
    out.append(",\"provider_extra\":");
    match &descriptor.provider_extra {
        Some(extra) => out.append(extra.as_str()),
        None => out.append("{}"),
    }
    out.append("}");
    sha256_hex(out.as_str().as_bytes())
}

} // verus!
