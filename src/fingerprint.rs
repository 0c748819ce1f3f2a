//! The proxy-side fingerprint: the allow-listed request headers, the response
//! text and the completion time, as a JSON context whose canonical bytes are
//! hashed to a 32-byte leaf.
use vstd::prelude::*;
use crate::crypto::blake3_hash;
use crate::json::{canonical, canonical_members, canonicalise, key_less, member_order, JsonValue};
use crate::sorting::{
    entries, entry, lemma_increasing_unique, lemma_member_order, lemma_members_congruent,
    lemma_order_congruent,
};
use crate::receipt::same_text;
use crate::verify::{buffers, leaf_of};

verus! {

broadcast use vstd::seq_lib::group_filter_ensures;

/// The request headers that take part in a fingerprint.
pub open spec fn allowed_header(name: Seq<char>) -> bool {
    ||| name == "x-model-id"@
    ||| name == "x-adapter-ids"@
    ||| name == "x-prompt-template-id"@
    ||| name == "x-approval-status"@
}

/// The allow-listed headers, in order of arrival.
pub open spec fn selected(headers: Seq<(String, String)>) -> Seq<(String, String)> {
    headers.filter(|h: (String, String)| allowed_header(h.0@))
}

/// The text of some bytes, each invalid UTF-8 sequence replaced by U+FFFD.
pub uninterp spec fn utf8_lossy(b: Seq<u8>) -> Seq<char>;

/// Relies on `String::from_utf8_lossy`: the text of the bytes, with each
/// invalid sequence replaced.
#[verifier::external_body]
fn lossy_text(b: &[u8]) -> (r: String)
    ensures
        r@ == utf8_lossy(b@),
{
    String::from_utf8_lossy(b).into_owned()
}

/// Whether a request header takes part in a fingerprint: exact equality
/// with one of the four allowed names.
pub fn is_allowed_header(name: &str) -> (r: bool)
    ensures
        r == allowed_header(name@),
{
    same_text(name, "x-model-id") || same_text(name, "x-adapter-ids") || same_text(
        name,
        "x-prompt-template-id",
    ) || same_text(name, "x-approval-status")
}

/// Keeps the allow-listed headers, in order.
pub fn select_headers(headers: &Vec<(String, String)>) -> (r: Vec<(String, String)>)
    ensures
        r@ == selected(headers@),
{
    let mut out: Vec<(String, String)> = Vec::new();
    let mut i: usize = 0;
    assert(headers@.take(0) =~= Seq::<(String, String)>::empty());
    reveal(Seq::filter);
    while i < headers.len()
        invariant
            i <= headers@.len(),
            out@ == selected(headers@.take(i as int)),
        decreases headers@.len() - i,
    {
        let ghost before = headers@.take(i as int);
        assert(headers@.take(i + 1) =~= before.push(headers@[i as int]));
        proof {
            before.lemma_filter_push(
                headers@[i as int],
                |h: (String, String)| allowed_header(h.0@),
            );
        }
        if is_allowed_header(headers[i].0.as_str()) {
            out.push((headers[i].0.clone(), headers[i].1.clone()));
        }
        i = i + 1;
    }
    assert(headers@.take(headers@.len() as int) =~= headers@);
    out
}

/// `v` is the context object of a fingerprint: the headers as an object of
/// strings in the given order, then the response text, then the time.
pub open spec fn is_context(
    v: JsonValue,
    headers: Seq<(String, String)>,
    text: Seq<char>,
    timestamp_ns: int,
) -> bool {
    &&& v is Object
    &&& v->Object_0@.len() == 3
    &&& v->Object_0@[0].0@ == "request_headers"@
    &&& v->Object_0@[0].1 is Object
    &&& v->Object_0@[0].1->Object_0@.len() == headers.len()
    &&& forall|i: int|
        0 <= i < headers.len() ==> (#[trigger] v->Object_0@[0].1->Object_0@[i]).0 == headers[i].0
            && v->Object_0@[0].1->Object_0@[i].1 == JsonValue::Str(headers[i].1)
    &&& v->Object_0@[1].0@ == "response_text"@
    &&& v->Object_0@[1].1 is Str
    &&& v->Object_0@[1].1->Str_0@ == text
    &&& v->Object_0@[2].0@ == "timestamp_ns"@
    &&& v->Object_0@[2].1 == JsonValue::Number(timestamp_ns as i128)
}

/// Headers of one name carry one value.
pub open spec fn one_value_per_name(headers: Seq<(String, String)>) -> bool {
    forall|a: int, b: int|
        0 <= a < headers.len() && 0 <= b < headers.len() && (#[trigger] headers[a]).0@ == (
        #[trigger] headers[b]).0@ ==> headers[a].1@ == headers[b].1@
}

/// Each list holds every header of the other, in any order and with any
/// number of repeats.
pub open spec fn same_headers(first: Seq<(String, String)>, second: Seq<(String, String)>) -> bool {
    &&& forall|a: int| 0 <= a < first.len() ==> #[trigger] second.contains(first[a])
    &&& forall|b: int| 0 <= b < second.len() ==> #[trigger] first.contains(second[b])
}

proof fn lemma_header_entries(
    hm1: Seq<(String, JsonValue)>,
    first: Seq<(String, String)>,
    hm2: Seq<(String, JsonValue)>,
    second: Seq<(String, String)>,
    x: (Seq<char>, Seq<u8>),
)
    requires
        hm1.len() == first.len() <= usize::MAX,
        hm2.len() == second.len() <= usize::MAX,
        forall|i: int|
            0 <= i < first.len() ==> (#[trigger] hm1[i]).0 == first[i].0 && hm1[i].1
                == JsonValue::Str(first[i].1),
        forall|i: int|
            0 <= i < second.len() ==> (#[trigger] hm2[i]).0 == second[i].0 && hm2[i].1
                == JsonValue::Str(second[i].1),
        same_headers(first, second),
        one_value_per_name(second),
        entries(hm1, member_order(hm1, hm1.len())).contains(x),
    ensures
        entries(hm2, member_order(hm2, hm2.len())).contains(x),
{
    lemma_member_order(hm1, hm1.len());
    lemma_member_order(hm2, hm2.len());
    let o1 = member_order(hm1, hm1.len());
    let o2 = member_order(hm2, hm2.len());
    let e1 = entries(hm1, o1);
    let m = choose|m: int| 0 <= m < e1.len() && e1[m] == x;
    let a = o1[m] as int;
    assert(hm1[a].0 == first[a].0);
    assert(second.contains(first[a]));
    let b = choose|b: int| 0 <= b < second.len() && second[b] == first[a];
    assert(hm2[b].0 == second[b].0);
    let y = choose|y: usize| #[trigger] o2.contains(y) && hm2[y as int].0@ == hm2[b].0@;
    assert(hm2[y as int].0 == second[y as int].0);
    assert(second[y as int].1@ == second[b].1@);
    assert(entry(hm2, y as int) == x);
    let q = choose|q: int| 0 <= q < o2.len() && o2[q] == y;
    assert(entries(hm2, o2)[q] == x);
}

proof fn lemma_header_members(
    hm1: Seq<(String, JsonValue)>,
    first: Seq<(String, String)>,
    hm2: Seq<(String, JsonValue)>,
    second: Seq<(String, String)>,
)
    requires
        hm1.len() == first.len() <= usize::MAX,
        hm2.len() == second.len() <= usize::MAX,
        forall|i: int|
            0 <= i < first.len() ==> (#[trigger] hm1[i]).0 == first[i].0 && hm1[i].1
                == JsonValue::Str(first[i].1),
        forall|i: int|
            0 <= i < second.len() ==> (#[trigger] hm2[i]).0 == second[i].0 && hm2[i].1
                == JsonValue::Str(second[i].1),
        same_headers(first, second),
        one_value_per_name(first),
        one_value_per_name(second),
    ensures
        canonical_members(
            hm1,
            member_order(hm1, hm1.len()),
            member_order(hm1, hm1.len()).len() as int,
        ) == canonical_members(
            hm2,
            member_order(hm2, hm2.len()),
            member_order(hm2, hm2.len()).len() as int,
        ),
{
    lemma_member_order(hm1, hm1.len());
    lemma_member_order(hm2, hm2.len());
    let o1 = member_order(hm1, hm1.len());
    let o2 = member_order(hm2, hm2.len());
    let e1 = entries(hm1, o1);
    let e2 = entries(hm2, o2);
    assert forall|a: int, b: int| 0 <= a < b < e1.len() implies key_less(
        #[trigger] e1[a].0,
        #[trigger] e1[b].0,
    ) by {
        assert(key_less(hm1[o1[a] as int].0@, hm1[o1[b] as int].0@));
    }
    assert forall|a: int, b: int| 0 <= a < b < e2.len() implies key_less(
        #[trigger] e2[a].0,
        #[trigger] e2[b].0,
    ) by {
        assert(key_less(hm2[o2[a] as int].0@, hm2[o2[b] as int].0@));
    }
    assert(same_headers(second, first));
    assert forall|x: (Seq<char>, Seq<u8>)| e1.contains(x) <==> e2.contains(x) by {
        if e1.contains(x) {
            lemma_header_entries(hm1, first, hm2, second, x);
        }
        if e2.contains(x) {
            lemma_header_entries(hm2, second, hm1, first, x);
        }
    }
    lemma_increasing_unique(e1, e2);
    assert(o1.len() == o2.len());
    assert forall|k: int| 0 <= k < o1.len() implies entry(hm1, #[trigger] o1[k] as int) == entry(
        hm2,
        o2[k] as int,
    ) by {
        assert(e1[k] == entry(hm1, o1[k] as int));
        assert(e2[k] == entry(hm2, o2[k] as int));
    }
    lemma_members_congruent(hm1, o1, hm2, o2, o1.len() as int);
}

/// The canonical bytes of a fingerprint context, and so its leaf, do not
/// depend on the order in which the request headers arrived, nor on repeats
/// of a header with an equal value: two header lists that hold the same
/// headers give the same bytes.
pub proof fn lemma_context_ignores_header_order(
    v1: JsonValue,
    v2: JsonValue,
    first: Seq<(String, String)>,
    second: Seq<(String, String)>,
    text: Seq<char>,
    timestamp_ns: int,
)
    requires
        is_context(v1, first, text, timestamp_ns),
        is_context(v2, second, text, timestamp_ns),
        first.len() <= usize::MAX,
        second.len() <= usize::MAX,
        same_headers(first, second),
        one_value_per_name(first),
        one_value_per_name(second),
    ensures
        canonical(v1) == canonical(v2),
{
    let top1 = v1->Object_0@;
    let top2 = v2->Object_0@;
    lemma_header_members(top1[0].1->Object_0@, first, top2[0].1->Object_0@, second);
    assert(canonical(top1[0].1) == canonical(top2[0].1));
    lemma_order_congruent(top1, top2, 3);
    lemma_member_order(top1, 3);
    let o = member_order(top1, 3);
    assert forall|j: int| 0 <= j < 3 implies #[trigger] entry(top1, j) == entry(top2, j) by {
        if j == 1 {
            assert(canonical(top1[1].1) == canonical(top2[1].1));
        }
    }
    assert forall|k: int| 0 <= k < o.len() implies entry(top1, #[trigger] o[k] as int) == entry(
        top2,
        o[k] as int,
    ) by {
        assert(entry(top1, o[k] as int) == entry(top2, o[k] as int));
    }
    lemma_members_congruent(top1, o, top2, o, o.len() as int);
}

/// The context object of a fingerprint.
pub fn build_context(headers: &Vec<(String, String)>, response_text: String, timestamp_ns: u64) -> (r:
    JsonValue)
    ensures
        is_context(r, headers@, response_text@, timestamp_ns as int),
{
    let mut members: Vec<(String, JsonValue)> = Vec::new();
    let mut i: usize = 0;
    while i < headers.len()
        invariant
            i <= headers@.len(),
            members@.len() == i,
            forall|j: int|
                0 <= j < i ==> (#[trigger] members@[j]).0 == headers@[j].0 && members@[j].1
                    == JsonValue::Str(headers@[j].1),
        decreases headers@.len() - i,
    {
        members.push((headers[i].0.clone(), JsonValue::Str(headers[i].1.clone())));
        i = i + 1;
    }
    let mut context: Vec<(String, JsonValue)> = Vec::new();
    context.push(("request_headers".to_owned(), JsonValue::Object(members)));
    context.push(("response_text".to_owned(), JsonValue::Str(response_text)));
    context.push(("timestamp_ns".to_owned(), JsonValue::Number(timestamp_ns as i128)));
    JsonValue::Object(context)
}

/// One HTTP stream's fingerprint state: the allow-listed request headers, the
/// response body once complete, and the leaves computed so far.
pub struct ProxyHttp {
    pub request_headers: Vec<(String, String)>,
    pub response_body: Option<Vec<u8>>,
    pub hash_queue: Vec<Vec<u8>>,
}

impl ProxyHttp {
    /// A stream that has seen nothing yet.
    pub fn new() -> (r: ProxyHttp)
        ensures
            r.request_headers@.len() == 0,
            r.response_body is None,
            r.hash_queue@.len() == 0,
    {
        ProxyHttp { request_headers: Vec::new(), response_body: None, hash_queue: Vec::new() }
    }

    /// Keeps the allow-listed request headers.
    pub fn on_http_request_headers(&mut self, headers: &Vec<(String, String)>)
        ensures
            final(self).request_headers@ == selected(headers@),
            final(self).response_body == old(self).response_body,
            final(self).hash_queue == old(self).hash_queue,
    {
        self.request_headers = select_headers(headers);
    }

    /// The context object from what the stream has seen; a missing body
    /// gives an empty response text.
    pub fn build_context(&self, timestamp_ns: u64) -> (r: JsonValue)
        ensures
            self.response_body is None ==> is_context(
                r,
                self.request_headers@,
                Seq::<char>::empty(),
                timestamp_ns as int,
            ),
            self.response_body is Some ==> is_context(
                r,
                self.request_headers@,
                utf8_lossy(self.response_body->Some_0@),
                timestamp_ns as int,
            ),
    {
        let text = match &self.response_body {
            Some(b) => lossy_text(b.as_slice()),
            None => String::new(),
        };
        build_context(&self.request_headers, text, timestamp_ns)
    }

    /// At the end of the response, records the body and appends the leaf of
    /// the stream's context, stamped `timestamp_ns`, to the queue.
    pub fn on_http_response_body(&mut self, body: Vec<u8>, end_of_stream: bool, timestamp_ns: u64)
        ensures
            !end_of_stream ==> *final(self) == *old(self),
            end_of_stream ==> final(self).response_body == Some(body),
            end_of_stream ==> final(self).request_headers == old(self).request_headers,
            end_of_stream ==> (exists|v: JsonValue|
                is_context(v, old(self).request_headers@, utf8_lossy(body@), timestamp_ns as int)
                    && buffers(final(self).hash_queue@) == buffers(old(self).hash_queue@).push(
                    leaf_of(v),
                )),
    {
        if end_of_stream {
            self.response_body = Some(body);
            let context = self.build_context(timestamp_ns);
            let canonical = canonicalise(&context);
            let hash = blake3_hash(canonical.as_slice());
            let ghost before = self.hash_queue@;
            self.hash_queue.push(hash);
            assert(buffers(self.hash_queue@) =~= buffers(before).push(leaf_of(context)));
        }
    }
}

} // verus!
