use vstd::prelude::*;
use vstd::utf8::encode_utf8;
use crate::bytes::{all_digits, dec_bytes, dec_u64, digits_val, extend_bytes, is_digit, str_bytes};
use crate::chat::{Chat, ChatMessage};

verus! {

/// Whether a byte is insignificant whitespace between JSON tokens.
pub open spec fn is_json_ws(b: u8) -> bool {
    b == 32 || b == 9 || b == 10 || b == 13
}

/// First index at or after `i` that does not hold JSON whitespace, or the end.
pub open spec fn ws_end(s: Seq<u8>, i: int) -> int
    decreases s.len() - i,
{
    if i < 0 || i >= s.len() {
        s.len() as int
    } else if is_json_ws(s[i]) {
        ws_end(s, i + 1)
    } else {
        i
    }
}

/// First index at or after `i` that does not hold a digit, or the end.
pub open spec fn digits_end(s: Seq<u8>, i: int) -> int
    decreases s.len() - i,
{
    if i < 0 || i >= s.len() {
        s.len() as int
    } else if is_digit(s[i]) {
        digits_end(s, i + 1)
    } else {
        i
    }
}

/// The digit run starting at `i` is a digit run.
pub proof fn lemma_digits_end(s: Seq<u8>, i: int)
    requires
        0 <= i <= s.len(),
    ensures
        i <= digits_end(s, i) <= s.len(),
        all_digits(s.subrange(i, digits_end(s, i))),
    decreases s.len() - i,
{
    if i < s.len() && is_digit(s[i]) {
        lemma_digits_end(s, i + 1);
        let e = digits_end(s, i);
        assert forall|j: int| 0 <= j < s.subrange(i, e).len() implies is_digit(
            s.subrange(i, e)[j],
        ) by {
            if j == 0 {
                assert(s.subrange(i, e)[0] == s[i]);
            } else {
                assert(s.subrange(i, e)[j] == s.subrange(i + 1, e)[j - 1]);
            }
        }
    }
}

/// A number at `i`: a nonempty digit run (no sign, fraction or exponent)
/// whose value fits a `u64`; the value and the index after the run.
pub open spec fn num_at(s: Seq<u8>, i: int) -> Option<(u64, int)> {
    let e = digits_end(s, i);
    if e == i || digits_val(s.subrange(i, e)) > u64::MAX {
        None
    } else {
        Some((digits_val(s.subrange(i, e)) as u64, e))
    }
}

/// The byte an escape character after a backslash stands for, if the escape
/// is one of the recognised single-character ones.
pub open spec fn unescape(e: u8) -> Option<u8> {
    if e == 34 {
        Some(34u8)
    } else if e == 92 {
        Some(92u8)
    } else if e == 47 {
        Some(47u8)
    } else if e == 98 {
        Some(8u8)
    } else if e == 102 {
        Some(12u8)
    } else if e == 110 {
        Some(10u8)
    } else if e == 114 {
        Some(13u8)
    } else if e == 116 {
        Some(9u8)
    } else {
        None
    }
}

/// The content of a string body that starts at `i` (just inside the opening
/// quote): the decoded bytes and the index after the closing quote.  Control
/// characters must be escaped; of the escapes, the single-character ones are
/// understood.
pub open spec fn string_at(s: Seq<u8>, i: int) -> Option<(Seq<u8>, int)>
    decreases s.len() - i,
{
    if i < 0 || i >= s.len() {
        None
    } else if s[i] == 34 {
        Some((Seq::empty(), i + 1))
    } else if s[i] == 92 {
        if i + 1 >= s.len() {
            None
        } else {
            match unescape(s[i + 1]) {
                None => None,
                Some(b) => match string_at(s, i + 2) {
                    None => None,
                    Some((rest, end)) => Some((seq![b] + rest, end)),
                },
            }
        }
    } else if s[i] < 32 {
        None
    } else {
        match string_at(s, i + 1) {
            None => None,
            Some((rest, end)) => Some((seq![s[i]] + rest, end)),
        }
    }
}

/// An array of numbers at `i` (just after the opening bracket): the values
/// and the index after the closing bracket.
pub open spec fn nums_at(s: Seq<u8>, i: int, fuel: nat) -> Option<(Seq<u64>, int)>
    decreases fuel,
{
    let j = ws_end(s, i);
    if j < s.len() && s[j] == 93 {
        Some((Seq::empty(), j + 1))
    } else {
        match num_at(s, j) {
            None => None,
            Some((v, e)) => match nums_rest(s, e, fuel) {
                None => None,
                Some(p) => Some((seq![v] + p.0, p.1)),
            },
        }
    }
}

/// The remaining elements of a number array: either the closing bracket, or a
/// comma and another number, and so on.
pub open spec fn nums_rest(s: Seq<u8>, i: int, fuel: nat) -> Option<(Seq<u64>, int)>
    decreases fuel,
{
    let j = ws_end(s, i);
    if j < s.len() && s[j] == 93 {
        Some((Seq::empty(), j + 1))
    } else if j < s.len() && s[j] == 44 && fuel > 0 {
        let k = ws_end(s, j + 1);
        match num_at(s, k) {
            None => None,
            Some((v, e)) => match nums_rest(s, e, (fuel - 1) as nat) {
                None => None,
                Some(p) => Some((seq![v] + p.0, p.1)),
            },
        }
    } else {
        None
    }
}

/// One JSON value of the forms this protocol uses: a number, a string, or an
/// array of numbers.
pub enum JsonVal {
    Num(u64),
    Text(Vec<u8>),
    Nums(Vec<u64>),
}

/// The mathematical value of a JSON value.
pub enum JsonModel {
    Num(u64),
    Text(Seq<u8>),
    Nums(Seq<u64>),
}

impl View for JsonVal {
    type V = JsonModel;

    open spec fn view(&self) -> JsonModel {
        match self {
            JsonVal::Num(v) => JsonModel::Num(*v),
            JsonVal::Text(t) => JsonModel::Text(t@),
            JsonVal::Nums(vs) => JsonModel::Nums(vs@),
        }
    }
}

/// The value at `i`: a number, a string, or an array of numbers, with the
/// index after it.
pub open spec fn value_at(s: Seq<u8>, i: int, fuel: nat) -> Option<(JsonModel, int)> {
    let j = ws_end(s, i);
    if j >= s.len() {
        None
    } else if s[j] == 34 {
        match string_at(s, j + 1) {
            None => None,
            Some(p) => Some((JsonModel::Text(p.0), p.1)),
        }
    } else if is_digit(s[j]) {
        match num_at(s, j) {
            None => None,
            Some(p) => Some((JsonModel::Num(p.0), p.1)),
        }
    } else if s[j] == 91 {
        match nums_at(s, j + 1, fuel) {
            None => None,
            Some(p) => Some((JsonModel::Nums(p.0), p.1)),
        }
    } else {
        None
    }
}

/// The members of an object whose opening brace is at `ws_end(s, i)`: the
/// named fields in order and the index after the closing brace.
pub open spec fn object_at(s: Seq<u8>, i: int, fuel: nat) -> Option<
    (Seq<(Seq<u8>, JsonModel)>, int),
> {
    let j = ws_end(s, i);
    if j < s.len() && s[j] == 123 {
        let k = ws_end(s, j + 1);
        if k < s.len() && s[k] == 125 {
            Some((Seq::empty(), k + 1))
        } else {
            members_at(s, j + 1, fuel)
        }
    } else {
        None
    }
}

/// The members from `i` on: a string key, a colon, a value, and then either
/// the closing brace or a comma and further members.
pub open spec fn members_at(s: Seq<u8>, i: int, fuel: nat) -> Option<
    (Seq<(Seq<u8>, JsonModel)>, int),
>
    decreases fuel,
{
    let j = ws_end(s, i);
    if j < s.len() && s[j] == 34 {
        match string_at(s, j + 1) {
            None => None,
            Some((name, after_name)) => {
                let c = ws_end(s, after_name);
                if c < s.len() && s[c] == 58 {
                    match value_at(s, c + 1, fuel) {
                        None => None,
                        Some((v, after_v)) => {
                            let d = ws_end(s, after_v);
                            if d < s.len() && s[d] == 125 {
                                Some((seq![(name, v)], d + 1))
                            } else if d < s.len() && s[d] == 44 && fuel > 0 {
                                match members_at(s, d + 1, (fuel - 1) as nat) {
                                    None => None,
                                    Some(p) => Some((seq![(name, v)] + p.0, p.1)),
                                }
                            } else {
                                None
                            }
                        },
                    }
                } else {
                    None
                }
            },
        }
    } else {
        None
    }
}

/// More fuel than any buffer needs: one unit per byte and one to spare.
pub open spec fn doc_fuel(s: Seq<u8>) -> nat {
    s.len()
}

/// A whole document that is one object: its fields, with only whitespace
/// allowed after the closing brace.
pub open spec fn doc_fields(s: Seq<u8>) -> Option<Seq<(Seq<u8>, JsonModel)>> {
    match object_at(s, 0, doc_fuel(s)) {
        None => None,
        Some((fields, end)) => if ws_end(s, end) == s.len() {
            Some(fields)
        } else {
            None
        },
    }
}

/// The value of the first field with the given name.
pub open spec fn field_lookup(fs: Seq<(Seq<u8>, JsonModel)>, name: Seq<u8>) -> Option<JsonModel>
    decreases fs.len(),
{
    if fs.len() == 0 {
        None
    } else if fs[0].0 == name {
        Some(fs[0].1)
    } else {
        field_lookup(fs.drop_first(), name)
    }
}

/// Byte sequences of a list of parsed fields.
pub open spec fn fields_view(fs: Seq<(Vec<u8>, JsonVal)>) -> Seq<(Seq<u8>, JsonModel)> {
    fs.map_values(|p: (Vec<u8>, JsonVal)| (p.0@, p.1@))
}

/// Find the first non-whitespace index at or after `i`.
fn ws_end_exec(s: &[u8], i: usize) -> (r: usize)
    requires
        i <= s@.len(),
    ensures
        r == ws_end(s@, i as int),
        i <= r <= s@.len(),
{
    let mut k: usize = i;
    while k < s.len()
        invariant
            i <= k <= s@.len(),
            ws_end(s@, i as int) == ws_end(s@, k as int),
        decreases s@.len() - k,
    {
        let b = s[k];
        if !(b == 32 || b == 9 || b == 10 || b == 13) {
            return k;
        }
        k = k + 1;
    }
    k
}

/// Find the end of the digit run at `i`.
fn digits_end_exec(s: &[u8], i: usize) -> (r: usize)
    requires
        i <= s@.len(),
    ensures
        r == digits_end(s@, i as int),
        i <= r <= s@.len(),
{
    let mut k: usize = i;
    while k < s.len()
        invariant
            i <= k <= s@.len(),
            digits_end(s@, i as int) == digits_end(s@, k as int),
        decreases s@.len() - k,
    {
        let b = s[k];
        if !(48 <= b && b <= 57) {
            return k;
        }
        k = k + 1;
    }
    k
}

/// Read the number at `i`.
fn num_at_exec(s: &[u8], i: usize) -> (r: Option<(u64, usize)>)
    requires
        i <= s@.len(),
    ensures
        match r {
            None => num_at(s@, i as int) is None,
            Some(p) => num_at(s@, i as int) == Some((p.0, p.1 as int)) && p.1 <= s@.len(),
        },
{
    let e = digits_end_exec(s, i);
    proof {
        lemma_digits_end(s@, i as int);
    }
    if e == i {
        return None;
    }
    match crate::bytes::parse_u64_digits(s, i, e) {
        Some(v) => Some((v, e)),
        None => None,
    }
}

/// Read the string body that starts at `i`.
fn string_at_exec(s: &[u8], i: usize) -> (r: Option<(Vec<u8>, usize)>)
    requires
        i <= s@.len(),
    ensures
        match r {
            None => string_at(s@, i as int) is None,
            Some(p) => string_at(s@, i as int) == Some((p.0@, p.1 as int)) && p.1 <= s@.len(),
        },
    decreases s@.len() - i,
{
    if i >= s.len() {
        return None;
    }
    let b = s[i];
    if b == 34 {
        let empty: Vec<u8> = Vec::new();
        assert(empty@ =~= Seq::<u8>::empty());
        return Some((empty, i + 1));
    }
    if b == 92 {
        if i + 1 >= s.len() {
            return None;
        }
        let e = s[i + 1];
        let decoded: Option<u8> = if e == 34 {
            Some(34)
        } else if e == 92 {
            Some(92)
        } else if e == 47 {
            Some(47)
        } else if e == 98 {
            Some(8)
        } else if e == 102 {
            Some(12)
        } else if e == 110 {
            Some(10)
        } else if e == 114 {
            Some(13)
        } else if e == 116 {
            Some(9)
        } else {
            None
        };
        assert(decoded == unescape(e));
        match decoded {
            None => None,
            Some(d) => match string_at_exec(s, i + 2) {
                None => None,
                Some((mut rest, end)) => {
                    let ghost tail = rest@;
                    rest.insert(0, d);
                    assert(rest@ =~= seq![d] + tail);
                    Some((rest, end))
                },
            },
        }
    } else if b < 32 {
        None
    } else {
        match string_at_exec(s, i + 1) {
            None => None,
            Some((mut rest, end)) => {
                let ghost tail = rest@;
                rest.insert(0, b);
                assert(rest@ =~= seq![b] + tail);
                Some((rest, end))
            },
        }
    }
}

/// Read the number array whose elements start at `i`.
fn nums_at_exec(s: &[u8], i: usize, fuel: usize) -> (r: Option<(Vec<u64>, usize)>)
    requires
        i <= s@.len(),
    ensures
        match r {
            None => nums_at(s@, i as int, fuel as nat) is None,
            Some(p) => nums_at(s@, i as int, fuel as nat) == Some((p.0@, p.1 as int)) && p.1 <= s@.len(),
        },
{
    let j = ws_end_exec(s, i);
    if j < s.len() && s[j] == 93 {
        let empty: Vec<u64> = Vec::new();
        assert(empty@ =~= Seq::<u64>::empty());
        return Some((empty, j + 1));
    }
    match num_at_exec(s, j) {
        None => None,
        Some((v, e)) => match nums_rest_exec(s, e, fuel) {
            None => None,
            Some((mut rest, end)) => {
                let ghost tail = rest@;
                rest.insert(0, v);
                assert(rest@ =~= seq![v] + tail);
                Some((rest, end))
            },
        },
    }
}

/// Read the remaining elements of a number array from `i` on.
fn nums_rest_exec(s: &[u8], i: usize, fuel: usize) -> (r: Option<(Vec<u64>, usize)>)
    requires
        i <= s@.len(),
    ensures
        match r {
            None => nums_rest(s@, i as int, fuel as nat) is None,
            Some(p) => nums_rest(s@, i as int, fuel as nat) == Some((p.0@, p.1 as int)) && p.1 <= s@.len(),
        },
    decreases fuel,
{
    let j = ws_end_exec(s, i);
    if j < s.len() && s[j] == 93 {
        let empty: Vec<u64> = Vec::new();
        assert(empty@ =~= Seq::<u64>::empty());
        return Some((empty, j + 1));
    }
    if j < s.len() && s[j] == 44 && fuel > 0 {
        let k = ws_end_exec(s, j + 1);
        match num_at_exec(s, k) {
            None => None,
            Some((v, e)) => match nums_rest_exec(s, e, fuel - 1) {
                None => None,
                Some((mut rest, end)) => {
                    let ghost tail = rest@;
                    rest.insert(0, v);
                    assert(rest@ =~= seq![v] + tail);
                    Some((rest, end))
                },
            },
        }
    } else {
        None
    }
}

/// Read the value at `i`.
fn value_at_exec(s: &[u8], i: usize, fuel: usize) -> (r: Option<(JsonVal, usize)>)
    requires
        i <= s@.len(),
    ensures
        match r {
            None => value_at(s@, i as int, fuel as nat) is None,
            Some(p) => value_at(s@, i as int, fuel as nat) == Some((p.0@, p.1 as int)) && p.1 <= s@.len(),
        },
{
    let j = ws_end_exec(s, i);
    if j >= s.len() {
        return None;
    }
    let b = s[j];
    if b == 34 {
        match string_at_exec(s, j + 1) {
            None => None,
            Some((t, e)) => Some((JsonVal::Text(t), e)),
        }
    } else if 48 <= b && b <= 57 {
        match num_at_exec(s, j) {
            None => None,
            Some((v, e)) => Some((JsonVal::Num(v), e)),
        }
    } else if b == 91 {
        match nums_at_exec(s, j + 1, fuel) {
            None => None,
            Some((vs, e)) => Some((JsonVal::Nums(vs), e)),
        }
    } else {
        None
    }
}

/// Read the members of an object from `i` on.
fn members_at_exec(s: &[u8], i: usize, fuel: usize) -> (r: Option<(Vec<(Vec<u8>, JsonVal)>, usize)>)
    requires
        i <= s@.len(),
    ensures
        match r {
            None => members_at(s@, i as int, fuel as nat) is None,
            Some(p) => members_at(s@, i as int, fuel as nat) == Some(
                (fields_view(p.0@), p.1 as int),
            ) && p.1 <= s@.len(),
        },
    decreases fuel,
{
    let j = ws_end_exec(s, i);
    if !(j < s.len() && s[j] == 34) {
        return None;
    }
    let (name, after_name) = match string_at_exec(s, j + 1) {
        None => {
            return None;
        },
        Some(p) => p,
    };
    let c = ws_end_exec(s, after_name);
    if !(c < s.len() && s[c] == 58) {
        return None;
    }
    let (v, after_v) = match value_at_exec(s, c + 1, fuel) {
        None => {
            return None;
        },
        Some(p) => p,
    };
    let d = ws_end_exec(s, after_v);
    if d < s.len() && s[d] == 125 {
        let mut fields: Vec<(Vec<u8>, JsonVal)> = Vec::new();
        let ghost nv = (name@, v@);
        fields.push((name, v));
        assert(fields_view(fields@) =~= seq![nv]);
        Some((fields, d + 1))
    } else if d < s.len() && s[d] == 44 && fuel > 0 {
        match members_at_exec(s, d + 1, fuel - 1) {
            None => None,
            Some((mut rest, end)) => {
                let ghost tail = rest@;
                let ghost nv = (name@, v@);
                rest.insert(0, (name, v));
                assert(fields_view(rest@) =~= seq![nv] + fields_view(tail));
                Some((rest, end))
            },
        }
    } else {
        None
    }
}

/// Read the object whose brace follows `i`.
fn object_at_exec(s: &[u8], i: usize, fuel: usize) -> (r: Option<(Vec<(Vec<u8>, JsonVal)>, usize)>)
    requires
        i <= s@.len(),
    ensures
        match r {
            None => object_at(s@, i as int, fuel as nat) is None,
            Some(p) => object_at(s@, i as int, fuel as nat) == Some(
                (fields_view(p.0@), p.1 as int),
            ) && p.1 <= s@.len(),
        },
{
    let j = ws_end_exec(s, i);
    if !(j < s.len() && s[j] == 123) {
        return None;
    }
    let k = ws_end_exec(s, j + 1);
    if k < s.len() && s[k] == 125 {
        let empty: Vec<(Vec<u8>, JsonVal)> = Vec::new();
        assert(fields_view(empty@) =~= Seq::<(Seq<u8>, JsonModel)>::empty());
        Some((empty, k + 1))
    } else {
        members_at_exec(s, j + 1, fuel)
    }
}

/// Parse a whole document that must be one object.
pub fn doc_fields_exec(s: &[u8]) -> (r: Option<Vec<(Vec<u8>, JsonVal)>>)
    ensures
        match r {
            None => doc_fields(s@) is None,
            Some(fields) => doc_fields(s@) == Some(fields_view(fields@)),
        },
{
    match object_at_exec(s, 0, s.len()) {
        None => None,
        Some((fields, end)) => {
            if ws_end_exec(s, end) == s.len() {
                Some(fields)
            } else {
                None
            }
        },
    }
}

/// Look up the first field with the given name.
fn field_lookup_exec<'a>(fields: &'a Vec<(Vec<u8>, JsonVal)>, name: &[u8]) -> (r: Option<
    &'a JsonVal,
>)
    ensures
        match r {
            None => field_lookup(fields_view(fields@), name@) is None,
            Some(v) => field_lookup(fields_view(fields@), name@) == Some(v@),
        },
{
    let n = fields.len();
    let mut i: usize = 0;
    assert(fields_view(fields@).skip(0) =~= fields_view(fields@));
    while i < n
        invariant
            i <= n,
            n == fields@.len(),
            field_lookup(fields_view(fields@), name@) == field_lookup(
                fields_view(fields@).skip(i as int),
                name@,
            ),
        decreases n - i,
    {
        proof {
            assert(fields_view(fields@).skip(i as int)[0] == fields_view(fields@)[i as int]);
            assert(fields_view(fields@).skip(i as int).drop_first() =~= fields_view(fields@).skip(
                i as int + 1,
            ));
        }
        let pair = &fields[i];
        if crate::bytes::bytes_eq(pair.0.as_slice(), name) {
            return Some(&pair.1);
        }
        i = i + 1;
    }
    None
}

/// The fields of a chat body: an object with exactly an `id` number and a
/// `participantIds` array of two numbers, in either order.
pub open spec fn chat_fields(s: Seq<u8>) -> Option<(u64, u64, u64)> {
    match doc_fields(s) {
        None => None,
        Some(fs) => {
            if fs.len() == 2 {
                match (
                    field_lookup(fs, encode_utf8("id"@)),
                    field_lookup(fs, encode_utf8("participantIds"@)),
                ) {
                    (Some(JsonModel::Num(id)), Some(JsonModel::Nums(ps))) => {
                        if ps.len() == 2 {
                            Some((id, ps[0], ps[1]))
                        } else {
                            None
                        }
                    },
                    _ => None,
                }
            } else {
                None
            }
        },
    }
}

/// Read the fields of a chat body.
pub fn parse_chat_fields(s: &[u8]) -> (r: Option<(u64, u64, u64)>)
    ensures
        r == chat_fields(s@),
{
    let fields = match doc_fields_exec(s) {
        None => {
            return None;
        },
        Some(fields) => fields,
    };
    if fields.len() != 2 {
        return None;
    }
    let id = match field_lookup_exec(&fields, str_bytes("id")) {
        Some(JsonVal::Num(id)) => *id,
        _ => {
            return None;
        },
    };
    match field_lookup_exec(&fields, str_bytes("participantIds")) {
        Some(JsonVal::Nums(ps)) => {
            if ps.len() == 2 {
                Some((id, ps[0], ps[1]))
            } else {
                None
            }
        },
        _ => None,
    }
}

/// The fields of a message body: an object with exactly an `id` string, a
/// `timestamp` number, a `message` string, a `sourceUserId` number and a
/// `destinationUserId` number, in any order.
pub open spec fn message_fields(s: Seq<u8>) -> Option<(Seq<u8>, u64, Seq<u8>, u64, u64)> {
    match doc_fields(s) {
        None => None,
        Some(fs) => {
            if fs.len() == 5 {
                match (
                    field_lookup(fs, encode_utf8("id"@)),
                    field_lookup(fs, encode_utf8("timestamp"@)),
                    field_lookup(fs, encode_utf8("message"@)),
                    field_lookup(fs, encode_utf8("sourceUserId"@)),
                    field_lookup(fs, encode_utf8("destinationUserId"@)),
                ) {
                    (
                        Some(JsonModel::Text(id)),
                        Some(JsonModel::Num(ts)),
                        Some(JsonModel::Text(msg)),
                        Some(JsonModel::Num(src)),
                        Some(JsonModel::Num(dst)),
                    ) => Some((id, ts, msg, src, dst)),
                    _ => None,
                }
            } else {
                None
            }
        },
    }
}

/// Read the fields of a message body.
pub fn parse_message_fields(s: &[u8]) -> (r: Option<(Vec<u8>, u64, Vec<u8>, u64, u64)>)
    ensures
        match r {
            None => message_fields(s@) is None,
            Some(p) => message_fields(s@) == Some((p.0@, p.1, p.2@, p.3, p.4)),
        },
{
    let fields = match doc_fields_exec(s) {
        None => {
            return None;
        },
        Some(fields) => fields,
    };
    if fields.len() != 5 {
        return None;
    }
    let id = match field_lookup_exec(&fields, str_bytes("id")) {
        Some(JsonVal::Text(t)) => crate::bytes::copy_range(t.as_slice(), 0, t.len()),
        _ => {
            return None;
        },
    };
    let ts = match field_lookup_exec(&fields, str_bytes("timestamp")) {
        Some(JsonVal::Num(v)) => *v,
        _ => {
            return None;
        },
    };
    let msg = match field_lookup_exec(&fields, str_bytes("message")) {
        Some(JsonVal::Text(t)) => crate::bytes::copy_range(t.as_slice(), 0, t.len()),
        _ => {
            return None;
        },
    };
    let src = match field_lookup_exec(&fields, str_bytes("sourceUserId")) {
        Some(JsonVal::Num(v)) => *v,
        _ => {
            return None;
        },
    };
    let dst = match field_lookup_exec(&fields, str_bytes("destinationUserId")) {
        Some(JsonVal::Num(v)) => *v,
        _ => {
            return None;
        },
    };
    assert(id@ =~= id@);
    Some((id, ts, msg, src, dst))
}

/// The hexadecimal digit character of a value below sixteen, in lower case.
pub open spec fn hex_digit(n: u8) -> u8 {
    if n < 10 {
        (48 + n) as u8
    } else {
        (87 + n) as u8
    }
}

/// How one byte of string content is written: quotes and backslashes get a
/// backslash, the named control characters their short escapes, the remaining
/// control characters a four-digit escape, and every other byte stands as is.
pub open spec fn esc_byte(b: u8) -> Seq<u8> {
    if b == 34 {
        seq![92u8, 34u8]
    } else if b == 92 {
        seq![92u8, 92u8]
    } else if b == 8 {
        seq![92u8, 98u8]
    } else if b == 9 {
        seq![92u8, 116u8]
    } else if b == 10 {
        seq![92u8, 110u8]
    } else if b == 12 {
        seq![92u8, 102u8]
    } else if b == 13 {
        seq![92u8, 114u8]
    } else if b < 32 {
        seq![92u8, 117u8, 48u8, 48u8, hex_digit(b / 16), hex_digit(b % 16)]
    } else {
        seq![b]
    }
}

/// The escaped content of a string.
pub open spec fn jstring_body_enc(s: Seq<u8>) -> Seq<u8>
    decreases s.len(),
{
    if s.len() == 0 {
        Seq::empty()
    } else {
        jstring_body_enc(s.drop_last()) + esc_byte(s.last())
    }
}

/// A serialized string: quoted, with its content escaped.
pub open spec fn jstring_enc(s: Seq<u8>) -> Seq<u8> {
    seq![34u8] + jstring_body_enc(s) + seq![34u8]
}

/// Append a serialized string.
fn write_jstring(out: &mut Vec<u8>, s: &[u8])
    ensures
        final(out)@ == old(out)@ + jstring_enc(s@),
{
    out.push(34);
    let n = s.len();
    let mut i: usize = 0;
    assert(s@.take(0) =~= Seq::<u8>::empty());
    while i < n
        invariant
            i <= n,
            n == s@.len(),
            out@ == old(out)@ + seq![34u8] + jstring_body_enc(s@.take(i as int)),
        decreases n - i,
    {
        let b = s[i];
        if b == 34 {
            out.push(92);
            out.push(34);
        } else if b == 92 {
            out.push(92);
            out.push(92);
        } else if b == 8 {
            out.push(92);
            out.push(98);
        } else if b == 9 {
            out.push(92);
            out.push(116);
        } else if b == 10 {
            out.push(92);
            out.push(110);
        } else if b == 12 {
            out.push(92);
            out.push(102);
        } else if b == 13 {
            out.push(92);
            out.push(114);
        } else if b < 32 {
            out.push(92);
            out.push(117);
            out.push(48);
            out.push(48);
            let hi = b / 16;
            let lo = b % 16;
            out.push(if hi < 10 {
                48 + hi
            } else {
                87 + hi
            });
            out.push(if lo < 10 {
                48 + lo
            } else {
                87 + lo
            });
        } else {
            out.push(b);
        }
        i = i + 1;
        proof {
            assert(s@.take(i as int).drop_last() =~= s@.take(i - 1));
            assert(s@.take(i as int).last() == s@[i - 1]);
            assert(out@ =~= old(out)@ + seq![34u8] + jstring_body_enc(s@.take(i as int)));
        }
    }
    assert(s@.take(n as int) =~= s@);
    out.push(34);
    assert(out@ =~= old(out)@ + jstring_enc(s@));
}

/// The wire form of one chat: its identifier and its participants, in fixed
/// field order.
pub open spec fn json_chat(c: Chat) -> Seq<u8> {
    encode_utf8("{\"id\":"@) + dec_bytes(c.id as nat) + encode_utf8(",\"participantIds\":["@)
        + dec_bytes(c.participant_ids@[0] as nat) + seq![44u8] + dec_bytes(
        c.participant_ids@[1] as nat,
    ) + encode_utf8("]}"@)
}

/// The wire form of a list of chats, comma separated.
pub open spec fn json_chat_items(cs: Seq<Chat>) -> Seq<u8>
    decreases cs.len(),
{
    if cs.len() == 0 {
        Seq::empty()
    } else if cs.len() == 1 {
        json_chat(cs[0])
    } else {
        json_chat_items(cs.drop_last()) + seq![44u8] + json_chat(cs.last())
    }
}

/// The wire form of an array of chats.
pub open spec fn json_chats(cs: Seq<Chat>) -> Seq<u8> {
    seq![91u8] + json_chat_items(cs) + seq![93u8]
}

/// Append the wire form of one chat.
fn write_chat(out: &mut Vec<u8>, c: &Chat)
    ensures
        final(out)@ == old(out)@ + json_chat(*c),
{
    extend_bytes(out, str_bytes("{\"id\":"));
    let d = dec_u64(c.id);
    extend_bytes(out, d.as_slice());
    extend_bytes(out, str_bytes(",\"participantIds\":["));
    let p0 = dec_u64(c.participant_ids[0]);
    extend_bytes(out, p0.as_slice());
    out.push(44);
    let p1 = dec_u64(c.participant_ids[1]);
    extend_bytes(out, p1.as_slice());
    extend_bytes(out, str_bytes("]}"));
    assert(out@ =~= old(out)@ + json_chat(*c));
}

/// Serialize a list of chats to its wire form.
pub fn chats_to_json(cs: &Vec<Chat>) -> (r: Vec<u8>)
    ensures
        r@ == json_chats(cs@),
{
    let mut out: Vec<u8> = Vec::new();
    out.push(91);
    let n = cs.len();
    let mut i: usize = 0;
    assert(cs@.take(0) =~= Seq::<Chat>::empty());
    while i < n
        invariant
            i <= n,
            n == cs@.len(),
            out@ == seq![91u8] + json_chat_items(cs@.take(i as int)),
        decreases n - i,
    {
        if i > 0 {
            out.push(44);
        }
        write_chat(&mut out, &cs[i]);
        i = i + 1;
        proof {
            assert(cs@.take(i as int).drop_last() =~= cs@.take(i - 1));
            assert(cs@.take(i as int).last() == cs@[i - 1]);
            assert(out@ =~= seq![91u8] + json_chat_items(cs@.take(i as int)));
        }
    }
    assert(cs@.take(n as int) =~= cs@);
    out.push(93);
    assert(out@ =~= json_chats(cs@));
    out
}

/// The wire form of one message: its fields in declaration order, the texts
/// escaped.
pub open spec fn json_message(m: ChatMessage) -> Seq<u8> {
    encode_utf8("{\"id\":"@) + jstring_enc(encode_utf8(m.id@)) + encode_utf8(",\"timestamp\":"@)
        + dec_bytes(m.timestamp as nat) + encode_utf8(",\"message\":"@) + jstring_enc(
        encode_utf8(m.message@),
    ) + encode_utf8(",\"sourceUserId\":"@) + dec_bytes(m.source_user_id as nat) + encode_utf8(
        ",\"destinationUserId\":"@,
    ) + dec_bytes(m.destination_user_id as nat) + seq![125u8]
}

/// The wire form of a list of messages, comma separated.
pub open spec fn json_message_items(ms: Seq<ChatMessage>) -> Seq<u8>
    decreases ms.len(),
{
    if ms.len() == 0 {
        Seq::empty()
    } else if ms.len() == 1 {
        json_message(ms[0])
    } else {
        json_message_items(ms.drop_last()) + seq![44u8] + json_message(ms.last())
    }
}

/// The wire form of an array of messages.
pub open spec fn json_messages(ms: Seq<ChatMessage>) -> Seq<u8> {
    seq![91u8] + json_message_items(ms) + seq![93u8]
}

/// Append the wire form of one message.
fn write_message(out: &mut Vec<u8>, m: &ChatMessage)
    ensures
        final(out)@ == old(out)@ + json_message(*m),
{
    extend_bytes(out, str_bytes("{\"id\":"));
    write_jstring(out, str_bytes(m.id.as_str()));
    extend_bytes(out, str_bytes(",\"timestamp\":"));
    let ts = dec_u64(m.timestamp);
    extend_bytes(out, ts.as_slice());
    extend_bytes(out, str_bytes(",\"message\":"));
    write_jstring(out, str_bytes(m.message.as_str()));
    extend_bytes(out, str_bytes(",\"sourceUserId\":"));
    let src = dec_u64(m.source_user_id);
    extend_bytes(out, src.as_slice());
    extend_bytes(out, str_bytes(",\"destinationUserId\":"));
    let dst = dec_u64(m.destination_user_id);
    extend_bytes(out, dst.as_slice());
    out.push(125);
    assert(out@ =~= old(out)@ + json_message(*m));
}

/// Serialize a list of messages to its wire form.
pub fn messages_to_json(ms: &Vec<ChatMessage>) -> (r: Vec<u8>)
    ensures
        r@ == json_messages(ms@),
{
    let mut out: Vec<u8> = Vec::new();
    out.push(91);
    let n = ms.len();
    let mut i: usize = 0;
    assert(ms@.take(0) =~= Seq::<ChatMessage>::empty());
    while i < n
        invariant
            i <= n,
            n == ms@.len(),
            out@ == seq![91u8] + json_message_items(ms@.take(i as int)),
        decreases n - i,
    {
        if i > 0 {
            out.push(44);
        }
        write_message(&mut out, &ms[i]);
        i = i + 1;
        proof {
            assert(ms@.take(i as int).drop_last() =~= ms@.take(i - 1));
            assert(ms@.take(i as int).last() == ms@[i - 1]);
            assert(out@ =~= seq![91u8] + json_message_items(ms@.take(i as int)));
        }
    }
    assert(ms@.take(n as int) =~= ms@);
    out.push(93);
    assert(out@ =~= json_messages(ms@));
    out
}

} // verus!
