//! A JSON value model and its canonical byte encoding (RFC 8785): object
//! members sorted by the UTF-16 code units of their keys, one member per key
//! (the last, as in a JSON map), no insignificant whitespace, integers in
//! minimal decimal form.
use vstd::prelude::*;
use vstd::utf8::encode_utf8;
use vstd::std_specs::iter::IteratorSpec;
use crate::receipt::same_text;

verus! {

broadcast use vstd::std_specs::vec::group_vec_axioms;

/// A JSON document. Numbers are integers (every `i64` and `u64` value fits); object members keep their order of
/// appearance until they are canonicalised.
pub enum JsonValue {
    Null,
    Bool(bool),
    Number(i128),
    Str(String),
    Array(Vec<JsonValue>),
    Object(Vec<(String, JsonValue)>),
}

/// How a character stands inside a JSON string literal: a quote, a
/// backslash and the control characters below U+0020 are escaped (the usual
/// two-character escapes where there is one, else `\u00` and two lowercase
/// hexadecimal digits); every other character stands for itself.
pub open spec fn escaped_char(c: char) -> Seq<char> {
    let v = c as u32;
    let digits = seq!['0', '1', '2', '3', '4', '5', '6', '7', '8', '9', 'a', 'b', 'c', 'd', 'e', 'f'];
    if c == '"' {
        seq!['\\', '"']
    } else if c == '\\' {
        seq!['\\', '\\']
    } else if v == 8 {
        seq!['\\', 'b']
    } else if v == 9 {
        seq!['\\', 't']
    } else if v == 10 {
        seq!['\\', 'n']
    } else if v == 12 {
        seq!['\\', 'f']
    } else if v == 13 {
        seq!['\\', 'r']
    } else if v < 0x20 {
        seq!['\\', 'u', '0', '0', digits[(v / 16) as int], digits[(v % 16) as int]]
    } else {
        seq![c]
    }
}

/// The escaped characters of a text.
pub open spec fn escaped(s: Seq<char>) -> Seq<char>
    decreases s.len(),
{
    if s.len() == 0 {
        seq![]
    } else {
        escaped_char(s[0]) + escaped(s.drop_first())
    }
}

/// The JSON string literal of a text: its escaped characters in quotes.
pub open spec fn json_quoted(s: Seq<char>) -> Seq<char> {
    seq!['"'] + escaped(s) + seq!['"']
}

/// Relies on `serde_json::to_string` applied to a `&str`: it writes the
/// string in quotes, escaped by the table of `format_escaped_str_contents`
/// and `write_char_escape`, and for a string it cannot fail.
#[verifier::external_body]
fn quote_json(s: &str) -> (r: String)
    ensures
        r@ == json_quoted(s@),
{
    match serde_json::to_string(s) {
        Ok(t) => t,
        Err(_) => String::new(),
    }
}

/// The ASCII digits of a natural number, most significant first.
pub open spec fn digits(n: nat) -> Seq<u8>
    decreases n,
{
    if n < 10 {
        seq![(48 + n) as u8]
    } else {
        digits(n / 10) + seq![(48 + n % 10) as u8]
    }
}

/// Minimal decimal text of an integer.
pub open spec fn decimal(n: int) -> Seq<u8> {
    if n < 0 {
        seq![45u8] + digits((-n) as nat)
    } else {
        digits(n as nat)
    }
}

/// The value of a string of ASCII digits.
pub open spec fn digits_value(s: Seq<u8>) -> int
    decreases s.len(),
{
    if s.len() == 0 {
        0
    } else {
        digits_value(s.drop_last()) * 10 + (s.last() - 48)
    }
}

/// Digits hold only `0` to `9`, and read back as the number they were made of.
pub proof fn lemma_digits(n: nat)
    ensures
        digits_value(digits(n)) == n,
        digits(n).len() > 0,
        forall|i: int| 0 <= i < digits(n).len() ==> 48 <= #[trigger] digits(n)[i] <= 57,
    decreases n,
{
    if n >= 10 {
        lemma_digits(n / 10);
        let d = digits(n);
        assert(d.drop_last() =~= digits(n / 10));
        assert(d.last() == (48 + n % 10) as u8);
        assert((n / 10) * 10 + n % 10 == n);
        assert(digits_value(d) == digits_value(d.drop_last()) * 10 + (d.last() - 48));
    } else {
        let d = digits(n);
        assert(d.drop_last() =~= Seq::<u8>::empty());
        assert(digits_value(d.drop_last()) == 0);
        assert(d.last() == (48 + n) as u8);
        assert(digits_value(d) == digits_value(d.drop_last()) * 10 + (d.last() - 48));
    }
}

/// The decimal text of an integer determines the integer, and holds no colon.
pub proof fn lemma_decimal(a: int, b: int)
    ensures
        decimal(a) == decimal(b) ==> a == b,
        forall|i: int| 0 <= i < decimal(a).len() ==> #[trigger] decimal(a)[i] != 58,
{
    if a < 0 {
        lemma_digits((-a) as nat);
        assert(decimal(a).drop_first() =~= digits((-a) as nat));
    } else {
        lemma_digits(a as nat);
    }
    if b < 0 {
        lemma_digits((-b) as nat);
        assert(decimal(b).drop_first() =~= digits((-b) as nat));
    } else {
        lemma_digits(b as nat);
    }
    if decimal(a) == decimal(b) {
        assert(decimal(a)[0] == decimal(b)[0]);
    }
}

/// Where a character falls in the order of its UTF-16 code units, by which
/// RFC 8785 sorts keys. Characters below U+D800 are one unit of their own
/// value. Supplementary characters are two units, the first a surrogate from
/// 0xD800 to 0xDBFF, and keep code point order among themselves. Characters
/// from U+E000 to U+FFFF are one unit from 0xE000 up, so they come after every
/// supplementary character.
pub open spec fn utf16_rank(c: char) -> int {
    let v = c as u32 as int;
    if v < 0xD800 || v >= 0x10000 {
        v
    } else {
        v + 0x1_0000_0000
    }
}

/// Keys are ordered by their UTF-16 code units.
pub open spec fn key_less(a: Seq<char>, b: Seq<char>) -> bool
    decreases a.len(),
{
    if b.len() == 0 {
        false
    } else if a.len() == 0 {
        true
    } else if a[0] != b[0] {
        utf16_rank(a[0]) < utf16_rank(b[0])
    } else {
        key_less(a.drop_first(), b.drop_first())
    }
}

/// Inserts member index `i` into `order` before the first member whose key is
/// greater; a member with the same key is replaced, so that of several
/// members with one key the last one counts, as in a JSON map.
pub open spec fn insert_index(ms: Seq<(String, JsonValue)>, order: Seq<usize>, i: usize) -> Seq<usize>
    decreases order.len(),
{
    if order.len() == 0 {
        seq![i]
    } else if ms[i as int].0@ == ms[order[0] as int].0@ {
        seq![i] + order.drop_first()
    } else if key_less(ms[i as int].0@, ms[order[0] as int].0@) {
        seq![i] + order
    } else {
        seq![order[0]] + insert_index(ms, order.drop_first(), i)
    }
}

/// The indices of the first `n` members sorted by key, one per key.
pub open spec fn member_order(ms: Seq<(String, JsonValue)>, n: nat) -> Seq<usize>
    decreases n,
{
    if n == 0 {
        seq![]
    } else {
        insert_index(ms, member_order(ms, (n - 1) as nat), (n - 1) as usize)
    }
}

/// The canonical bytes of a JSON value.
pub open spec fn canonical(v: JsonValue) -> Seq<u8>
    decreases v, 0int,
{
    match v {
        JsonValue::Null => seq![110u8, 117u8, 108u8, 108u8],
        JsonValue::Bool(b) => if b {
            seq![116u8, 114u8, 117u8, 101u8]
        } else {
            seq![102u8, 97u8, 108u8, 115u8, 101u8]
        },
        JsonValue::Number(n) => decimal(n as int),
        JsonValue::Str(s) => encode_utf8(json_quoted(s@)),
        JsonValue::Array(items) => seq![91u8] + canonical_items(items@, items@.len() as int) + seq![
            93u8,
        ],
        JsonValue::Object(ms) => seq![123u8] + canonical_members(
            ms@,
            member_order(ms@, ms@.len()),
            member_order(ms@, ms@.len()).len() as int,
        ) + seq![125u8],
    }
}

/// The first `n` items, canonical and separated by commas.
pub open spec fn canonical_items(items: Seq<JsonValue>, n: int) -> Seq<u8>
    decreases items, n,
{
    if n <= 0 || n > items.len() {
        seq![]
    } else if n == 1 {
        canonical(items[0])
    } else {
        canonical_items(items, n - 1) + seq![44u8] + canonical(items[n - 1])
    }
}

/// The member at position `j` as `"key":value`.
pub open spec fn canonical_member(ms: Seq<(String, JsonValue)>, j: int) -> Seq<u8>
    decreases ms, 0int,
{
    if 0 <= j < ms.len() {
        encode_utf8(json_quoted(ms[j].0@)) + seq![58u8] + canonical(ms[j].1)
    } else {
        seq![]
    }
}

/// The members named by the first `n` entries of `order`, separated by commas.
pub open spec fn canonical_members(ms: Seq<(String, JsonValue)>, order: Seq<usize>, n: int) -> Seq<u8>
    decreases ms, n,
{
    if n <= 0 || n > order.len() {
        seq![]
    } else if n == 1 {
        canonical_member(ms, order[0] as int)
    } else {
        canonical_members(ms, order, n - 1) + seq![44u8] + canonical_member(
            ms,
            order[n - 1] as int,
        )
    }
}


/// Appends every byte of `bytes`.
pub fn push_all(out: &mut Vec<u8>, bytes: &[u8])
    ensures
        final(out)@ == old(out)@ + bytes@,
{
    let mut i: usize = 0;
    while i < bytes.len()
        invariant
            i <= bytes@.len(),
            out@ == old(out)@ + bytes@.subrange(0, i as int),
        decreases bytes@.len() - i,
    {
        out.push(bytes[i]);
        i = i + 1;
        assert(out@ =~= old(out)@ + bytes@.subrange(0, i as int));
    }
    assert(bytes@.subrange(0, bytes@.len() as int) =~= bytes@);
}

/// Appends the decimal digits of `n`.
pub fn write_digits(n: u128, out: &mut Vec<u8>)
    ensures
        final(out)@ == old(out)@ + digits(n as nat),
    decreases n,
{
    if n >= 10 {
        write_digits(n / 10, out);
    }
    out.push(48u8 + (n % 10) as u8);
    assert(out@ =~= old(out)@ + digits(n as nat));
}

/// Appends the minimal decimal text of `n`.
pub fn write_decimal(n: i128, out: &mut Vec<u8>)
    ensures
        final(out)@ == old(out)@ + decimal(n as int),
{
    if n < 0 {
        out.push(45u8);
        let m: u128 = if n == i128::MIN {
            (i128::MAX as u128) + 1
        } else {
            (-n) as u128
        };
        write_digits(m, out);
        assert(out@ =~= old(out)@ + decimal(n as int));
    } else {
        write_digits(n as u128, out);
    }
}

/// The characters of a text.
fn chars_of(s: &str) -> (r: Vec<char>)
    ensures
        r@ == s@,
{
    let mut it = s.chars();
    let mut out: Vec<char> = Vec::new();
    loop
        invariant
            it.remaining() == s@.skip(out@.len() as int),
            out@ == s@.take(out@.len() as int),
            out@.len() <= s@.len(),
        decreases s@.len() - out@.len(),
    {
        match it.next() {
            Some(c) => {
                assert(s@.skip(out@.len() as int).drop_first() =~= s@.skip(out@.len() as int + 1));
                out.push(c);
                assert(out@ =~= s@.take(out@.len() as int));
            },
            None => {
                assert(out@ =~= s@);
                return out;
            },
        }
    }
}

fn rank(c: char) -> (r: u64)
    ensures
        r as int == utf16_rank(c),
{
    let v = c as u32;
    if v < 0xD800 || v >= 0x10000 {
        v as u64
    } else {
        v as u64 + 0x1_0000_0000
    }
}

/// Compares two keys by their UTF-16 code units.
pub fn key_precedes(a: &str, b: &str) -> (r: bool)
    ensures
        r == key_less(a@, b@),
{
    let x = chars_of(a);
    let y = chars_of(b);
    let ghost xs = x@;
    let ghost ys = y@;
    let mut i: usize = 0;
    assert(xs.skip(0) =~= xs);
    assert(ys.skip(0) =~= ys);
    while i < x.len() && i < y.len()
        invariant
            xs == x@,
            ys == y@,
            xs == a@,
            ys == b@,
            i <= xs.len(),
            i <= ys.len(),
            key_less(xs, ys) == key_less(xs.skip(i as int), ys.skip(i as int)),
        decreases xs.len() - i,
    {
        if x[i] != y[i] {
            return rank(x[i]) < rank(y[i]);
        }
        assert(xs.skip(i as int).drop_first() =~= xs.skip(i + 1));
        assert(ys.skip(i as int).drop_first() =~= ys.skip(i + 1));
        i = i + 1;
    }
    i < y.len()
}

/// Writes the JSON string literal of `s`.
fn write_string(s: &String, out: &mut Vec<u8>)
    ensures
        final(out)@ == old(out)@ + encode_utf8(json_quoted(s@)),
{
    let q = quote_json(s.as_str());
    push_all(out, q.as_str().as_bytes());
}

/// The member indices of `ms` sorted by key, the last member of each key.
fn sorted_member_indices(ms: &Vec<(String, JsonValue)>) -> (r: Vec<usize>)
    ensures
        r@ == member_order(ms@, ms@.len()),
        forall|k: int| 0 <= k < r@.len() ==> r@[k] < ms@.len(),
{
    let mut order: Vec<usize> = Vec::new();
    let mut i: usize = 0;
    while i < ms.len()
        invariant
            i <= ms@.len(),
            order@ == member_order(ms@, i as nat),
            order@.len() <= i,
            forall|k: int| 0 <= k < order@.len() ==> order@[k] < i,
        decreases ms@.len() - i,
    {
        let mut p: usize = 0;
        assert(order@.skip(0) =~= order@);
        assert(order@.take(0) =~= Seq::<usize>::empty());
        while p < order.len() && !same_text(ms[i].0.as_str(), ms[order[p]].0.as_str())
            && !key_precedes(ms[i].0.as_str(), ms[order[p]].0.as_str())
            invariant
                i < ms@.len(),
                p <= order@.len(),
                order@ == member_order(ms@, i as nat),
                order@.len() <= i,
                forall|k: int| 0 <= k < order@.len() ==> order@[k] < i,
                insert_index(ms@, order@, i) == order@.take(p as int) + insert_index(
                    ms@,
                    order@.skip(p as int),
                    i,
                ),
            decreases order@.len() - p,
        {
            assert(order@.skip(p as int).drop_first() =~= order@.skip(p + 1));
            assert(order@.take(p as int) + seq![order@[p as int]] =~= order@.take(p + 1));
            p = p + 1;
        }
        if p < order.len() && same_text(ms[i].0.as_str(), ms[order[p]].0.as_str()) {
            proof {
                assert(order@.update(p as int, i) =~= order@.take(p as int) + insert_index(
                    ms@,
                    order@.skip(p as int),
                    i,
                ));
            }
            order.set(p, i);
        } else {
            proof {
                if p < order@.len() {
                    assert(seq![i] + order@.skip(p as int) =~= order@.skip(p as int).insert(0, i));
                }
                assert(order@.insert(p as int, i) =~= order@.take(p as int) + insert_index(
                    ms@,
                    order@.skip(p as int),
                    i,
                ));
            }
            order.insert(p, i);
        }
        i = i + 1;
    }
    assert(order@ == member_order(ms@, ms@.len()));
    order
}

/// Appends the canonical bytes of `v`.
pub fn write_canonical(v: &JsonValue, out: &mut Vec<u8>)
    ensures
        final(out)@ == old(out)@ + canonical(*v),
    decreases v,
{
    match v {
        JsonValue::Null => {
            out.push(110u8);
            out.push(117u8);
            out.push(108u8);
            out.push(108u8);
            assert(out@ =~= old(out)@ + canonical(*v));
        },
        JsonValue::Bool(b) => {
            if *b {
                out.push(116u8);
                out.push(114u8);
                out.push(117u8);
                out.push(101u8);
            } else {
                out.push(102u8);
                out.push(97u8);
                out.push(108u8);
                out.push(115u8);
                out.push(101u8);
            }
            assert(out@ =~= old(out)@ + canonical(*v));
        },
        JsonValue::Number(n) => {
            write_decimal(*n, out);
        },
        JsonValue::Str(s) => {
            write_string(s, out);
        },
        JsonValue::Array(items) => {
            out.push(91u8);
            let mut i: usize = 0;
            while i < items.len()
                invariant
                    *v is Array,
                    v->Array_0 == *items,
                    i <= items@.len(),
                    out@ == old(out)@ + seq![91u8] + canonical_items(items@, i as int),
                decreases items@.len() - i,
            {
                if i > 0 {
                    out.push(44u8);
                }
                proof {
                    assert(decreases_to!(*v => v->Array_0));
                    assert(decreases_to!(v->Array_0 => v->Array_0[i as int]));
                }
                write_canonical(&items[i], out);
                i = i + 1;
                assert(out@ =~= old(out)@ + seq![91u8] + canonical_items(items@, i as int));
            }
            out.push(93u8);
            assert(out@ =~= old(out)@ + canonical(*v));
        },
        JsonValue::Object(ms) => {
            let order = sorted_member_indices(ms);
            out.push(123u8);
            let mut i: usize = 0;
            while i < order.len()
                invariant
                    *v is Object,
                    v->Object_0 == *ms,
                    order@ == member_order(ms@, ms@.len()),
                    i <= order@.len(),
                    forall|k: int| 0 <= k < order@.len() ==> order@[k] < ms@.len(),
                    out@ == old(out)@ + seq![123u8] + canonical_members(ms@, order@, i as int),
                decreases order@.len() - i,
            {
                let ghost before = out@;
                if i > 0 {
                    out.push(44u8);
                }
                let ghost sep = out@;
                let j = order[i];
                write_string(&ms[j].0, out);
                out.push(58u8);
                proof {
                    assert(decreases_to!(*v => v->Object_0));
                    assert(decreases_to!(v->Object_0 => v->Object_0[j as int]));
                    assert(decreases_to!(v->Object_0[j as int] => v->Object_0[j as int].1));
                }
                write_canonical(&ms[j].1, out);
                assert(out@ =~= sep + canonical_member(ms@, j as int));
                i = i + 1;
                assert(out@ =~= old(out)@ + seq![123u8] + canonical_members(ms@, order@, i as int));
            }
            out.push(125u8);
            assert(out@ =~= old(out)@ + canonical(*v));
        },
    }
}

/// The canonical bytes of a JSON value: object members sorted by the UTF-16
/// code units of their keys, the last member of each key only, no whitespace,
/// integers in minimal decimal form.
pub fn canonicalise(value: &JsonValue) -> (r: Vec<u8>)
    ensures
        r@ == canonical(*value),
{
    let mut out: Vec<u8> = Vec::new();
    write_canonical(value, &mut out);
    assert(out@ =~= canonical(*value));
    out
}

} // verus!
