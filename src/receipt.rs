//! The inclusion receipt, the text that its signature covers, and its JSON
//! form.
use vstd::prelude::*;
use vstd::utf8::encode_utf8;
use crate::encoding::{hex_text, lemma_hex_round_trip, to_hex};
use crate::json::{decimal, lemma_decimal, push_all, write_decimal, JsonValue};

verus! {

/// A signed inclusion receipt. Binary fields are lowercase hexadecimal; the
/// signature and the public key are standard base64.
pub struct Receipt {
    pub leaf_hash: String,
    pub leaf_index: i64,
    pub root_hash: String,
    pub inclusion_proof: Vec<String>,
    pub timestamp: String,
    pub metadata: JsonValue,
    pub signature: String,
    pub public_key: String,
}

/// Why a JSON document is not a receipt.
#[derive(Debug, PartialEq, Eq, Structural)]
pub enum ReceiptError {
    NotAnObject,
    MissingField,
}

/// The text that a receipt's signature covers:
/// `hex(leaf) ":" dec(index) ":" hex(root) ":" timestamp`.
pub open spec fn payload(leaf: Seq<u8>, index: int, root: Seq<u8>, timestamp: Seq<char>) -> Seq<u8> {
    hex_text(leaf) + seq![58u8] + decimal(index) + seq![58u8] + hex_text(root) + seq![58u8]
        + encode_utf8(timestamp)
}

/// Builds the text that a receipt's signature covers.
pub fn signed_payload(leaf_hash: &[u8], leaf_index: i64, root_hash: &[u8], timestamp: &str) -> (r:
    Vec<u8>)
    ensures
        r@ == payload(leaf_hash@, leaf_index as int, root_hash@, timestamp@),
{
    let mut out: Vec<u8> = Vec::new();
    let leaf = to_hex(leaf_hash);
    push_all(&mut out, leaf.as_str().as_bytes());
    out.push(58u8);
    write_decimal(leaf_index as i128, &mut out);
    out.push(58u8);
    let root = to_hex(root_hash);
    push_all(&mut out, root.as_str().as_bytes());
    out.push(58u8);
    push_all(&mut out, timestamp.as_bytes());
    assert(out@ =~= payload(leaf_hash@, leaf_index as int, root_hash@, timestamp@));
    out
}

/// A byte string holds no colon.
pub open spec fn colon_free(s: Seq<u8>) -> bool {
    forall|i: int| 0 <= i < s.len() ==> #[trigger] s[i] != 58
}

proof fn lemma_hex_colon_free(b: Seq<u8>)
    ensures
        colon_free(hex_text(b)),
    decreases b.len(),
{
    if b.len() > 0 {
        lemma_hex_colon_free(b.drop_first());
        let t = hex_text(b);
        assert forall|i: int| 0 <= i < t.len() implies #[trigger] t[i] != 58 by {
            if i >= 2 {
                assert(t[i] == hex_text(b.drop_first())[i - 2]);
            }
        }
    }
}

/// Splits at the first colon.
proof fn lemma_split_at_colon(a: Seq<u8>, x: Seq<u8>, b: Seq<u8>, y: Seq<u8>)
    requires
        colon_free(a),
        colon_free(b),
        a + seq![58u8] + x == b + seq![58u8] + y,
    ensures
        a == b,
        x == y,
{
    let s = a + seq![58u8] + x;
    let t = b + seq![58u8] + y;
    if a.len() < b.len() {
        assert(s[a.len() as int] == 58);
        assert(t[a.len() as int] == b[a.len() as int]);
    }
    if b.len() < a.len() {
        assert(t[b.len() as int] == 58);
        assert(s[b.len() as int] == a[b.len() as int]);
    }
    assert(a =~= s.subrange(0, a.len() as int));
    assert(b =~= t.subrange(0, b.len() as int));
    assert(x =~= s.subrange(a.len() as int + 1, s.len() as int));
    assert(y =~= t.subrange(b.len() as int + 1, t.len() as int));
}

/// The signed text binds every field: two receipts whose leaf, index, root
/// or timestamp differ have different signed texts.
pub proof fn lemma_payload_binds_fields(
    leaf1: Seq<u8>,
    index1: int,
    root1: Seq<u8>,
    time1: Seq<char>,
    leaf2: Seq<u8>,
    index2: int,
    root2: Seq<u8>,
    time2: Seq<char>,
)
    requires
        payload(leaf1, index1, root1, time1) == payload(leaf2, index2, root2, time2),
    ensures
        leaf1 == leaf2,
        index1 == index2,
        root1 == root2,
        time1 == time2,
{
    lemma_hex_colon_free(leaf1);
    lemma_hex_colon_free(leaf2);
    lemma_hex_colon_free(root1);
    lemma_hex_colon_free(root2);
    decimal_colon_free(index1);
    decimal_colon_free(index2);
    let rest1 = decimal(index1) + seq![58u8] + hex_text(root1) + seq![58u8] + encode_utf8(time1);
    let rest2 = decimal(index2) + seq![58u8] + hex_text(root2) + seq![58u8] + encode_utf8(time2);
    assert(payload(leaf1, index1, root1, time1) =~= hex_text(leaf1) + seq![58u8] + rest1);
    assert(payload(leaf2, index2, root2, time2) =~= hex_text(leaf2) + seq![58u8] + rest2);
    lemma_split_at_colon(hex_text(leaf1), rest1, hex_text(leaf2), rest2);
    let tail1 = hex_text(root1) + seq![58u8] + encode_utf8(time1);
    let tail2 = hex_text(root2) + seq![58u8] + encode_utf8(time2);
    assert(rest1 =~= decimal(index1) + seq![58u8] + tail1);
    assert(rest2 =~= decimal(index2) + seq![58u8] + tail2);
    lemma_split_at_colon(decimal(index1), tail1, decimal(index2), tail2);
    lemma_split_at_colon(hex_text(root1), encode_utf8(time1), hex_text(root2), encode_utf8(time2));
    lemma_decimal(index1, index2);
    lemma_hex_round_trip(leaf1);
    lemma_hex_round_trip(leaf2);
    lemma_hex_round_trip(root1);
    lemma_hex_round_trip(root2);
    vstd::utf8::encode_utf8_decode_utf8(time1);
    vstd::utf8::encode_utf8_decode_utf8(time2);
}

proof fn decimal_colon_free(n: int)
    ensures
        colon_free(decimal(n)),
{
    lemma_decimal(n, n);
}

/// The position of the first member named `key`.
pub open spec fn member_position(ms: Seq<(String, JsonValue)>, key: Seq<char>) -> Option<int>
    decreases ms.len(),
{
    if ms.len() == 0 {
        None
    } else if ms[0].0@ == key {
        Some(0)
    } else {
        match member_position(ms.drop_first(), key) {
            Some(i) => Some(i + 1),
            None => None,
        }
    }
}

/// The value of the first member named `key` of an object.
pub open spec fn field(v: JsonValue, key: Seq<char>) -> Option<JsonValue> {
    match v {
        JsonValue::Object(ms) => match member_position(ms@, key) {
            Some(i) => Some(ms@[i].1),
            None => None,
        },
        _ => None,
    }
}

/// A string member.
pub open spec fn text_field(v: JsonValue, key: Seq<char>) -> Option<Seq<char>> {
    match field(v, key) {
        Some(JsonValue::Str(s)) => Some(s@),
        _ => None,
    }
}

/// An integer member that fits in 64 signed bits.
pub open spec fn int_field(v: JsonValue, key: Seq<char>) -> Option<i64> {
    match field(v, key) {
        Some(JsonValue::Number(n)) => if i64::MIN <= n <= i64::MAX {
            Some(n as i64)
        } else {
            None
        },
        _ => None,
    }
}

/// The texts of an array of strings.
pub open spec fn texts_of(items: Seq<JsonValue>) -> Option<Seq<Seq<char>>> {
    if forall|i: int| 0 <= i < items.len() ==> (#[trigger] items[i]) is Str {
        Some(items.map_values(|x: JsonValue| x->Str_0@))
    } else {
        None
    }
}

/// A member that is an array of strings.
pub open spec fn texts_field(v: JsonValue, key: Seq<char>) -> Option<Seq<Seq<char>>> {
    match field(v, key) {
        Some(JsonValue::Array(items)) => texts_of(items@),
        _ => None,
    }
}

/// The texts of a list of strings.
pub open spec fn texts(ss: Seq<String>) -> Seq<Seq<char>> {
    ss.map_values(|s: String| s@)
}

/// `v` is a JSON object whose members carry exactly the fields of `r`.
pub open spec fn describes(v: JsonValue, r: Receipt) -> bool {
    &&& text_field(v, "leaf_hash"@) == Some(r.leaf_hash@)
    &&& int_field(v, "leaf_index"@) == Some(r.leaf_index)
    &&& text_field(v, "root_hash"@) == Some(r.root_hash@)
    &&& texts_field(v, "inclusion_proof"@) == Some(texts(r.inclusion_proof@))
    &&& text_field(v, "timestamp"@) == Some(r.timestamp@)
    &&& field(v, "metadata"@) == Some(r.metadata)
    &&& text_field(v, "signature"@) == Some(r.signature@)
    &&& text_field(v, "public_key"@) == Some(r.public_key@)
}

/// `v` is an object that has every field of a receipt, each of the right kind.
pub open spec fn is_receipt_json(v: JsonValue) -> bool {
    &&& v is Object
    &&& text_field(v, "leaf_hash"@) is Some
    &&& int_field(v, "leaf_index"@) is Some
    &&& text_field(v, "root_hash"@) is Some
    &&& texts_field(v, "inclusion_proof"@) is Some
    &&& text_field(v, "timestamp"@) is Some
    &&& field(v, "metadata"@) is Some
    &&& text_field(v, "signature"@) is Some
    &&& text_field(v, "public_key"@) is Some
}

/// Whether two texts are equal.
pub fn same_text(a: &str, b: &str) -> (r: bool)
    ensures
        r == (a@ == b@),
{
    let x = a.to_owned();
    let y = b.to_owned();
    x == y
}

/// The position of the first member named `key`.
fn find_member(ms: &Vec<(String, JsonValue)>, key: &str) -> (r: Option<usize>)
    ensures
        match r {
            Some(i) => member_position(ms@, key@) == Some(i as int) && i < ms@.len(),
            None => member_position(ms@, key@) is None,
        },
{
    let mut i: usize = 0;
    assert(ms@.skip(0) =~= ms@);
    while i < ms.len()
        invariant
            i <= ms@.len(),
            member_position(ms@, key@) == match member_position(ms@.skip(i as int), key@) {
                Some(j) => Some(j + i),
                None => None,
            },
        decreases ms@.len() - i,
    {
        if same_text(ms[i].0.as_str(), key) {
            return Some(i);
        }
        assert(ms@.skip(i as int).drop_first() =~= ms@.skip(i + 1));
        i = i + 1;
    }
    None
}

fn text_member(ms: &Vec<(String, JsonValue)>, key: &str) -> (r: Option<String>)
    ensures
        match r {
            Some(s) => text_field(JsonValue::Object(*ms), key@) == Some(s@),
            None => text_field(JsonValue::Object(*ms), key@) is None,
        },
{
    match find_member(ms, key) {
        Some(i) => match &ms[i].1 {
            JsonValue::Str(s) => Some(s.clone()),
            _ => None,
        },
        None => None,
    }
}

fn texts_member(ms: &Vec<(String, JsonValue)>, key: &str) -> (r: Option<Vec<String>>)
    ensures
        match r {
            Some(s) => texts_field(JsonValue::Object(*ms), key@) == Some(texts(s@)),
            None => texts_field(JsonValue::Object(*ms), key@) is None,
        },
{
    match find_member(ms, key) {
        Some(i) => match &ms[i].1 {
            JsonValue::Array(items) => {
                let mut out: Vec<String> = Vec::new();
                let mut k: usize = 0;
                while k < items.len()
                    invariant
                        i < ms@.len(),
                        member_position(ms@, key@) == Some(i as int),
                        ms@[i as int].1 == JsonValue::Array(*items),
                        k <= items@.len(),
                        out@.len() == k,
                        forall|j: int| 0 <= j < k ==> (#[trigger] items@[j]) is Str,
                        forall|j: int| 0 <= j < k ==> (#[trigger] out@[j])@ == items@[j]->Str_0@,
                    decreases items@.len() - k,
                {
                    match &items[k] {
                        JsonValue::Str(s) => out.push(s.clone()),
                        _ => {
                            return None;
                        },
                    }
                    k = k + 1;
                }
                assert(texts(out@) =~= items@.map_values(|x: JsonValue| x->Str_0@));
                Some(out)
            },
            _ => None,
        },
        None => None,
    }
}

/// The names of a receipt's JSON members differ from one another.
proof fn lemma_member_names_differ()
    ensures
        "leaf_hash"@ != "leaf_index"@,
        "leaf_hash"@ != "root_hash"@,
        "leaf_hash"@ != "inclusion_proof"@,
        "leaf_hash"@ != "timestamp"@,
        "leaf_hash"@ != "metadata"@,
        "leaf_hash"@ != "signature"@,
        "leaf_hash"@ != "public_key"@,
        "leaf_index"@ != "root_hash"@,
        "leaf_index"@ != "inclusion_proof"@,
        "leaf_index"@ != "timestamp"@,
        "leaf_index"@ != "metadata"@,
        "leaf_index"@ != "signature"@,
        "leaf_index"@ != "public_key"@,
        "root_hash"@ != "inclusion_proof"@,
        "root_hash"@ != "timestamp"@,
        "root_hash"@ != "metadata"@,
        "root_hash"@ != "signature"@,
        "root_hash"@ != "public_key"@,
        "inclusion_proof"@ != "timestamp"@,
        "inclusion_proof"@ != "metadata"@,
        "inclusion_proof"@ != "signature"@,
        "inclusion_proof"@ != "public_key"@,
        "timestamp"@ != "metadata"@,
        "timestamp"@ != "signature"@,
        "timestamp"@ != "public_key"@,
        "metadata"@ != "signature"@,
        "metadata"@ != "public_key"@,
        "signature"@ != "public_key"@,
{
    {
        reveal_strlit("leaf_hash");
        reveal_strlit("leaf_index");
        reveal_strlit("root_hash");
        reveal_strlit("inclusion_proof");
        reveal_strlit("timestamp");
        reveal_strlit("metadata");
        reveal_strlit("signature");
        reveal_strlit("public_key");
        assert("leaf_hash"@.len() == 9);
        assert("leaf_index"@.len() == 10);
        assert("root_hash"@.len() == 9);
        assert("inclusion_proof"@.len() == 15);
        assert("timestamp"@.len() == 9);
        assert("metadata"@.len() == 8);
        assert("signature"@.len() == 9);
        assert("public_key"@.len() == 10);
        assert("leaf_hash"@[0] != "root_hash"@[0]);
        assert("leaf_hash"@[0] != "timestamp"@[0]);
        assert("leaf_hash"@[0] != "signature"@[0]);
        assert("root_hash"@[0] != "timestamp"@[0]);
        assert("root_hash"@[0] != "signature"@[0]);
        assert("timestamp"@[0] != "signature"@[0]);
        assert("leaf_index"@[0] != "public_key"@[0]);
    }
}

impl Receipt {
    /// The receipt as a JSON object with one member per field.
    pub fn to_json(self) -> (r: JsonValue)
        ensures
            describes(r, self),
            is_receipt_json(r),
    {
        proof {
            lemma_member_names_differ();
        }
        let mut siblings: Vec<JsonValue> = Vec::new();
        let mut i: usize = 0;
        while i < self.inclusion_proof.len()
            invariant
                i <= self.inclusion_proof@.len(),
                siblings@.len() == i,
                forall|j: int| 0 <= j < i ==> (#[trigger] siblings@[j]) is Str,
                forall|j: int| 0 <= j < i ==> (#[trigger] siblings@[j])->Str_0@ == self.inclusion_proof@[j]@,
            decreases self.inclusion_proof@.len() - i,
        {
            siblings.push(JsonValue::Str(self.inclusion_proof[i].clone()));
            i = i + 1;
        }
        assert(siblings@.map_values(|x: JsonValue| x->Str_0@) =~= texts(self.inclusion_proof@));
        let mut ms: Vec<(String, JsonValue)> = Vec::new();
        ms.push(("leaf_hash".to_owned(), JsonValue::Str(self.leaf_hash)));
        ms.push(("leaf_index".to_owned(), JsonValue::Number(self.leaf_index as i128)));
        ms.push(("root_hash".to_owned(), JsonValue::Str(self.root_hash)));
        ms.push(("inclusion_proof".to_owned(), JsonValue::Array(siblings)));
        ms.push(("timestamp".to_owned(), JsonValue::Str(self.timestamp)));
        ms.push(("metadata".to_owned(), self.metadata));
        ms.push(("signature".to_owned(), JsonValue::Str(self.signature)));
        ms.push(("public_key".to_owned(), JsonValue::Str(self.public_key)));
        proof {
            reveal_with_fuel(member_position, 9);
        }
        JsonValue::Object(ms)
    }


    /// Reads a receipt from a JSON document; members of other names are
    /// ignored, and of two members of one name the first counts.
    pub fn from_json(v: JsonValue) -> (r: Result<Receipt, ReceiptError>)
        ensures
            r is Ok <==> is_receipt_json(v),
            r is Ok ==> describes(v, r->Ok_0),
            !(v is Object) ==> r == Err::<Receipt, ReceiptError>(ReceiptError::NotAnObject),
            v is Object && !is_receipt_json(v) ==> r == Err::<Receipt, ReceiptError>(
                ReceiptError::MissingField,
            ),
    {
        let ghost v0 = v;
        match v {
            JsonValue::Object(mut ms) => {
                let ghost m0 = ms;
                let leaf_hash = text_member(&ms, "leaf_hash");
                let root_hash = text_member(&ms, "root_hash");
                let inclusion_proof = texts_member(&ms, "inclusion_proof");
                let timestamp = text_member(&ms, "timestamp");
                let signature = text_member(&ms, "signature");
                let public_key = text_member(&ms, "public_key");
                let leaf_index = match find_member(&ms, "leaf_index") {
                    Some(i) => match &ms[i].1 {
                        JsonValue::Number(n) => if *n >= i64::MIN as i128 && *n <= i64::MAX as i128 {
                            Some(*n as i64)
                        } else {
                            None
                        },
                        _ => None,
                    },
                    None => None,
                };
                let position = find_member(&ms, "metadata");
                match (
                    leaf_hash,
                    leaf_index,
                    root_hash,
                    inclusion_proof,
                    timestamp,
                    position,
                    signature,
                    public_key,
                ) {
                    (
                        Some(leaf_hash),
                        Some(leaf_index),
                        Some(root_hash),
                        Some(inclusion_proof),
                        Some(timestamp),
                        Some(mi),
                        Some(signature),
                        Some(public_key),
                    ) => {
                        let member = ms.remove(mi);
                        assert(member == m0@[mi as int]);
                        Ok(
                            Receipt {
                                leaf_hash,
                                leaf_index,
                                root_hash,
                                inclusion_proof,
                                timestamp,
                                metadata: member.1,
                                signature,
                                public_key,
                            },
                        )
                    },
                    _ => Err(ReceiptError::MissingField),
                }
            },
            _ => Err(ReceiptError::NotAnObject),
        }
    }
}

} // verus!
