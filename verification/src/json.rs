//! The transport's structured text format.
//!
//! The remote session serializes every query result to a JSON-shaped text
//! form before it crosses the console connection.  This module gives that
//! format a verified codec: a value type, a parser, a printer, and the
//! accessors the typed-result decoders are built from.  Numbers are kept as
//! exact decimals (sign, integer part, fraction digits) so that every
//! contract stays over plain values; exponent notation is folded into that
//! form exactly on parsing, and string escapes include `\uXXXX` forms with
//! surrogate pairs.

use vstd::prelude::*;

use crate::text;

verus! {

// ---------------------------------------------------------------------------
// values and their mathematical model
// ---------------------------------------------------------------------------

/// An exact decimal number: sign, integer part, and the digits after the
/// decimal point (most significant first, possibly with trailing zeros kept
/// as written).
#[derive(Debug, PartialEq)]
pub struct Decimal {
    pub neg: bool,
    pub int_part: u64,
    pub frac: Vec<u8>,
}

/// Model of a [`Decimal`].
pub ghost struct NumSpec {
    pub neg: bool,
    pub int_part: nat,
    pub frac: Seq<u8>,
}

/// Model of a [`JsonValue`].
pub ghost enum JsonSpec {
    Null,
    Bool(bool),
    Num(NumSpec),
    Str(Seq<char>),
    Arr(Seq<JsonSpec>),
    Obj(Seq<(Seq<char>, JsonSpec)>),
}

/// A value of the transport's structured format.
#[derive(Debug, PartialEq)]
pub enum JsonValue {
    Null,
    Bool(bool),
    Num(Decimal),
    Str(String),
    Arr(Vec<JsonValue>),
    Obj(Vec<(String, JsonValue)>),
}

impl Decimal {
    pub open spec fn model(&self) -> NumSpec {
        NumSpec { neg: self.neg, int_part: self.int_part as nat, frac: self.frac@ }
    }

    /// All fraction digits are decimal digits.
    pub open spec fn wf(&self) -> bool {
        wf_num(self.model())
    }

    /// The decimal reading of a whole number.
    pub fn from_u64(n: u64) -> (r: Decimal)
        ensures
            r.model() == (NumSpec { neg: false, int_part: n as nat, frac: Seq::<u8>::empty() }),
            r.wf(),
    {
        let r = Decimal { neg: false, int_part: n, frac: Vec::new() };
        proof {
            assert(r.model().frac =~= Seq::<u8>::empty());
        }
        r
    }

    /// An exact copy.
    pub fn duplicate(&self) -> (r: Decimal)
        ensures
            r.model() == self.model(),
    {
        let mut frac: Vec<u8> = Vec::new();
        let n = self.frac.len();
        let mut i: usize = 0;
        while i < n
            invariant
                n == self.frac@.len(),
                i <= n,
                frac@ == self.frac@.take(i as int),
            decreases n - i,
        {
            frac.push(self.frac[i]);
            i = i + 1;
            proof {
                assert(frac@ =~= self.frac@.take(i as int));
            }
        }
        proof {
            assert(self.frac@.take(n as int) =~= self.frac@);
        }
        Decimal { neg: self.neg, int_part: self.int_part, frac }
    }
}

pub open spec fn wf_num(n: NumSpec) -> bool {
    &&& n.int_part <= 0xFFFF_FFFF_FFFF_FFFF
    &&& forall|i: int| 0 <= i < n.frac.len() ==> n.frac[i] < 10
}

/// Models of a sequence of values.
pub open spec fn models_of(items: Seq<JsonValue>) -> Seq<JsonSpec> {
    Seq::new(
        items.len(),
        |i: int|
            if 0 <= i < items.len() {
                model_of(items[i])
            } else {
                JsonSpec::Null
            },
    )
}

/// Models of a sequence of object members.
pub open spec fn member_models_of(pairs: Seq<(String, JsonValue)>) -> Seq<(Seq<char>, JsonSpec)> {
    Seq::new(
        pairs.len(),
        |i: int|
            if 0 <= i < pairs.len() {
                (pairs[i].0@, model_of(pairs[i].1))
            } else {
                (Seq::<char>::empty(), JsonSpec::Null)
            },
    )
}

pub open spec fn model_of(v: JsonValue) -> JsonSpec
    decreases v,
{
    match v {
        JsonValue::Null => JsonSpec::Null,
        JsonValue::Bool(b) => JsonSpec::Bool(b),
        JsonValue::Num(d) => JsonSpec::Num(d.model()),
        JsonValue::Str(s) => JsonSpec::Str(s@),
        JsonValue::Arr(items) => JsonSpec::Arr(
            Seq::new(
                items@.len(),
                |i: int|
                    if 0 <= i < items@.len() {
                        model_of(items@[i])
                    } else {
                        JsonSpec::Null
                    },
            ),
        ),
        JsonValue::Obj(pairs) => JsonSpec::Obj(
            Seq::new(
                pairs@.len(),
                |i: int|
                    if 0 <= i < pairs@.len() {
                        (pairs@[i].0@, model_of(pairs@[i].1))
                    } else {
                        (Seq::<char>::empty(), JsonSpec::Null)
                    },
            ),
        ),
    }
}

pub proof fn lemma_model_of_arr(items: Vec<JsonValue>)
    ensures
        model_of(JsonValue::Arr(items)) == JsonSpec::Arr(models_of(items@)),
{
    let m = model_of(JsonValue::Arr(items));
    match m {
        JsonSpec::Arr(x) => {
            assert(x =~= models_of(items@));
        },
        _ => {
            assert(false);
        },
    }
}

pub proof fn lemma_model_of_obj(pairs: Vec<(String, JsonValue)>)
    ensures
        model_of(JsonValue::Obj(pairs)) == JsonSpec::Obj(member_models_of(pairs@)),
{
    let m = model_of(JsonValue::Obj(pairs));
    match m {
        JsonSpec::Obj(x) => {
            assert(x =~= member_models_of(pairs@));
        },
        _ => {
            assert(false);
        },
    }
}

/// Well-formedness for printing: numbers carry real digits.  Strings are
/// unrestricted: the printer escapes what must be escaped.
pub open spec fn wf_json(v: JsonSpec) -> bool
    decreases v, 0int,
{
    match v {
        JsonSpec::Null => true,
        JsonSpec::Bool(_) => true,
        JsonSpec::Num(n) => wf_num(n),
        JsonSpec::Str(_) => true,
        JsonSpec::Arr(items) => wf_json_list(items, 0),
        JsonSpec::Obj(pairs) => wf_json_members(pairs, 0),
    }
}

/// Every item from position `i` on is well formed.
pub open spec fn wf_json_list(items: Seq<JsonSpec>, i: int) -> bool
    decreases items, items.len() - i,
{
    if 0 <= i < items.len() {
        wf_json(items[i]) && wf_json_list(items, i + 1)
    } else {
        true
    }
}

/// Every member value from position `i` on is well formed.
pub open spec fn wf_json_members(pairs: Seq<(Seq<char>, JsonSpec)>, i: int) -> bool
    decreases pairs, pairs.len() - i,
{
    if 0 <= i < pairs.len() {
        wf_json(pairs[i].1) && wf_json_members(pairs, i + 1)
    } else {
        true
    }
}

proof fn lemma_wf_list_elem(items: Seq<JsonSpec>, k: int, i: int)
    requires
        wf_json_list(items, k),
        0 <= k <= i < items.len(),
    ensures
        wf_json(items[i]),
    decreases i - k,
{
    if k < i {
        lemma_wf_list_elem(items, k + 1, i);
    }
}

pub proof fn lemma_wf_arr_elem(items: Seq<JsonSpec>, i: int)
    requires
        wf_json(JsonSpec::Arr(items)),
        0 <= i < items.len(),
    ensures
        wf_json(items[i]),
{
    lemma_wf_list_elem(items, 0, i);
}

proof fn lemma_wf_members_elem(pairs: Seq<(Seq<char>, JsonSpec)>, k: int, i: int)
    requires
        wf_json_members(pairs, k),
        0 <= k <= i < pairs.len(),
    ensures
        wf_json(pairs[i].1),
    decreases i - k,
{
    if k < i {
        lemma_wf_members_elem(pairs, k + 1, i);
    }
}

pub proof fn lemma_wf_obj_elem(pairs: Seq<(Seq<char>, JsonSpec)>, i: int)
    requires
        wf_json(JsonSpec::Obj(pairs)),
        0 <= i < pairs.len(),
    ensures
        wf_json(pairs[i].1),
{
    lemma_wf_members_elem(pairs, 0, i);
}

// ---------------------------------------------------------------------------
// the printer
// ---------------------------------------------------------------------------

/// How the printer escapes one character inside a string literal.
pub open spec fn sp_escape_json_char(c: char) -> Seq<char> {
    if c == '"' {
        seq!['\\', '"']
    } else if c == '\\' {
        seq!['\\', '\\']
    } else if c == '\n' {
        seq!['\\', 'n']
    } else if c == '\t' {
        seq!['\\', 't']
    } else if c == '\r' {
        seq!['\\', 'r']
    } else {
        seq![c]
    }
}

pub open spec fn sp_escape_json(s: Seq<char>) -> Seq<char>
    decreases s.len(),
{
    if s.len() == 0 {
        Seq::empty()
    } else {
        sp_escape_json_char(s[0]) + sp_escape_json(s.skip(1))
    }
}

pub open spec fn sp_frac_chars(fs: Seq<u8>) -> Seq<char> {
    Seq::new(
        fs.len(),
        |i: int|
            if 0 <= i < fs.len() {
                text::spec_digit_char(fs[i] as nat)
            } else {
                '0'
            },
    )
}

pub open spec fn sp_print_num(n: NumSpec) -> Seq<char> {
    let sign: Seq<char> = if n.neg {
        seq!['-']
    } else {
        Seq::empty()
    };
    if n.frac.len() == 0 {
        sign + text::spec_u64_digits(n.int_part)
    } else {
        sign + text::spec_u64_digits(n.int_part) + seq!['.'] + sp_frac_chars(n.frac)
    }
}

pub open spec fn sp_join_comma(parts: Seq<Seq<char>>) -> Seq<char>
    decreases parts.len(),
{
    if parts.len() == 0 {
        Seq::empty()
    } else if parts.len() == 1 {
        parts[0]
    } else {
        sp_join_comma(parts.drop_last()) + seq![','] + parts.last()
    }
}

/// The canonical text of a value: no whitespace, members in order.
pub open spec fn sp_print(v: JsonSpec) -> Seq<char>
    decreases v, 1int,
{
    match v {
        JsonSpec::Null => "null"@,
        JsonSpec::Bool(b) => if b {
            "true"@
        } else {
            "false"@
        },
        JsonSpec::Num(n) => sp_print_num(n),
        JsonSpec::Str(s) => seq!['"'] + sp_escape_json(s) + seq!['"'],
        JsonSpec::Arr(items) => seq!['['] + sp_join_comma(sp_item_prints(items)) + seq![']'],
        JsonSpec::Obj(pairs) => seq!['{'] + sp_join_comma(sp_member_prints(pairs))
            + seq!['}'],
    }
}

/// The printed parts of an array's items.
pub open spec fn sp_item_prints(items: Seq<JsonSpec>) -> Seq<Seq<char>>
    decreases items, 0int,
{
    Seq::new(
        items.len(),
        |i: int|
            if 0 <= i < items.len() {
                sp_print(items[i])
            } else {
                Seq::<char>::empty()
            },
    )
}

/// The printed parts of an object's members.
pub open spec fn sp_member_prints(pairs: Seq<(Seq<char>, JsonSpec)>) -> Seq<Seq<char>>
    decreases pairs, 0int,
{
    Seq::new(
        pairs.len(),
        |i: int|
            if 0 <= i < pairs.len() {
                seq!['"'] + sp_escape_json(pairs[i].0) + seq!['"', ':'] + sp_print(pairs[i].1)
            } else {
                Seq::<char>::empty()
            },
    )
}

fn push_escaped_str(out: &mut Vec<char>, s: &str)
    ensures
        final(out)@ == old(out)@ + sp_escape_json(s@),
{
    let v = text::to_char_vec(s);
    let vlen = v.len();
    let mut i: usize = 0;
    proof {
        assert(v@.skip(0) =~= v@);
        assert(old(out)@ + Seq::<char>::empty() =~= old(out)@);
    }
    while i < vlen
        invariant
            vlen == v@.len(),
            v@ == s@,
            i <= vlen,
            old(out)@ + sp_escape_json(v@) == out@ + sp_escape_json(v@.skip(i as int)),
        decreases vlen - i,
    {
        proof {
            assert(v@.skip(i as int)[0] == v@[i as int]);
            assert(v@.skip(i as int).skip(1) =~= v@.skip(i as int + 1));
        }
        let c = v[i];
        if c == '"' {
            out.push('\\');
            out.push('"');
        } else if c == '\\' {
            out.push('\\');
            out.push('\\');
        } else if c == '\n' {
            out.push('\\');
            out.push('n');
        } else if c == '\t' {
            out.push('\\');
            out.push('t');
        } else if c == '\r' {
            out.push('\\');
            out.push('r');
        } else {
            out.push(c);
        }
        i = i + 1;
    }
    proof {
        assert(v@.skip(vlen as int) =~= Seq::<char>::empty());
        assert(out@ + Seq::<char>::empty() =~= out@);
    }
}

fn push_num(out: &mut Vec<char>, d: &Decimal)
    requires
        d.wf(),
    ensures
        final(out)@ == old(out)@ + sp_print_num(d.model()),
{
    if d.neg {
        out.push('-');
    }
    proof {
        if !d.neg {
            assert(old(out)@ + Seq::<char>::empty() =~= old(out)@);
        }
    }
    text::push_u64_digits(out, d.int_part);
    if d.frac.len() > 0 {
        out.push('.');
        let n = d.frac.len();
        let ghost mid = out@;
        let mut i: usize = 0;
        proof {
            assert(sp_frac_chars(d.frac@).take(0) =~= Seq::<char>::empty());
            assert(mid + Seq::<char>::empty() =~= mid);
        }
        while i < n
            invariant
                n == d.frac@.len(),
                i <= n,
                d.wf(),
                out@ == mid + sp_frac_chars(d.frac@).take(i as int),
            decreases n - i,
        {
            proof {
                assert(d.model().frac[i as int] < 10);
                assert(d.model().frac == d.frac@);
            }
            out.push(text::digit_char_of(d.frac[i] as u64));
            i = i + 1;
            proof {
                assert(out@ =~= mid + sp_frac_chars(d.frac@).take(i as int));
            }
        }
        proof {
            assert(sp_frac_chars(d.frac@).take(n as int) =~= sp_frac_chars(d.frac@));
        }
    }
    proof {
        let m = d.model();
        let sign: Seq<char> = if m.neg {
            seq!['-']
        } else {
            Seq::<char>::empty()
        };
        if m.frac.len() == 0 {
            assert(old(out)@ + (sign + text::spec_u64_digits(m.int_part)) =~= out@);
        } else {
            assert(old(out)@ + (sign + text::spec_u64_digits(m.int_part) + seq!['.']
                + sp_frac_chars(m.frac)) =~= out@);
        }
    }
}

fn push_value(v: &JsonValue, out: &mut Vec<char>)
    requires
        wf_json(model_of(*v)),
    ensures
        final(out)@ == old(out)@ + sp_print(model_of(*v)),
    decreases *v,
{
    match v {
        JsonValue::Null => {
            out.push('n');
            out.push('u');
            out.push('l');
            out.push('l');
            proof {
                reveal_strlit("null");
                assert(*v == JsonValue::Null);
                assert(model_of(*v) == JsonSpec::Null);
                assert(sp_print(JsonSpec::Null) == "null"@);
                assert(out@ =~= old(out)@ + "null"@);
            }
        },
        JsonValue::Bool(b) => {
            if *b {
                out.push('t');
                out.push('r');
                out.push('u');
                out.push('e');
                proof {
                    reveal_strlit("true");
                    assert(out@ =~= old(out)@ + "true"@);
                }
            } else {
                out.push('f');
                out.push('a');
                out.push('l');
                out.push('s');
                out.push('e');
                proof {
                    reveal_strlit("false");
                    assert(out@ =~= old(out)@ + "false"@);
                }
            }
        },
        JsonValue::Num(d) => {
            push_num(out, d);
        },
        JsonValue::Str(s) => {
            out.push('"');
            push_escaped_str(out, s.as_str());
            out.push('"');
            proof {
                assert(out@ =~= old(out)@ + (seq!['"'] + sp_escape_json(s@) + seq!['"']));
            }
        },
        JsonValue::Arr(items) => {
            let ghost m = models_of(items@);
            let ghost parts = sp_item_prints(m);
            proof {
                assert(*v == JsonValue::Arr(*items));
                lemma_model_of_arr(*items);
            }
            out.push('[');
            let ghost mid = out@;
            let n = items.len();
            let mut i: usize = 0;
            proof {
                assert(mid =~= old(out)@ + seq!['[']);
            }
            while i < n
                invariant
                    n == items@.len(),
                    i <= n,
                    m == models_of(items@),
                    parts == sp_item_prints(m),
                    wf_json(JsonSpec::Arr(m)),
                    *v == JsonValue::Arr(*items),
                    model_of(*v) == JsonSpec::Arr(m),
                    out@ == mid + sp_join_comma(parts.take(i as int)),
                decreases n - i,
            {
                proof {
                    assert(m[i as int] == model_of(items@[i as int]));
                    lemma_wf_arr_elem(m, i as int);
                }
                if i > 0 {
                    out.push(',');
                }
                push_value(&items[i], out);
                i = i + 1;
                proof {
                    let pre = parts.take(i - 1);
                    let post = parts.take(i as int);
                    assert(post.drop_last() =~= pre);
                    assert(post.last() == sp_print(m[i - 1]));
                    if i == 1 {
                        assert(sp_join_comma(post) == post[0]);
                        assert(mid + Seq::<char>::empty() =~= mid);
                        assert(out@ =~= mid + sp_join_comma(post));
                    } else {
                        assert(sp_join_comma(post) == sp_join_comma(pre) + seq![',']
                            + post.last());
                        assert(out@ =~= mid + sp_join_comma(post));
                    }
                }
            }
            out.push(']');
            proof {
                assert(parts.take(n as int) =~= parts);
                assert(out@ =~= old(out)@ + (seq!['['] + sp_join_comma(parts) + seq![']']));
            }
        },
        JsonValue::Obj(pairs) => {
            let ghost m = member_models_of(pairs@);
            let ghost parts = sp_member_prints(m);
            proof {
                assert(*v == JsonValue::Obj(*pairs));
                lemma_model_of_obj(*pairs);
            }
            out.push('{');
            let ghost mid = out@;
            let n = pairs.len();
            let mut i: usize = 0;
            proof {
                assert(mid =~= old(out)@ + seq!['{']);
            }
            while i < n
                invariant
                    n == pairs@.len(),
                    i <= n,
                    m == member_models_of(pairs@),
                    parts == sp_member_prints(m),
                    wf_json(JsonSpec::Obj(m)),
                    *v == JsonValue::Obj(*pairs),
                    model_of(*v) == JsonSpec::Obj(m),
                    out@ == mid + sp_join_comma(parts.take(i as int)),
                decreases n - i,
            {
                proof {
                    assert(m[i as int] == (pairs@[i as int].0@, model_of(pairs@[i as int].1)));
                    lemma_wf_obj_elem(m, i as int);
                }
                if i > 0 {
                    out.push(',');
                }
                let ghost before_member = out@;
                out.push('"');
                push_escaped_str(out, pairs[i].0.as_str());
                out.push('"');
                out.push(':');
                push_value(&pairs[i].1, out);
                i = i + 1;
                proof {
                    assert(out@ =~= before_member + (seq!['"'] + sp_escape_json(m[i - 1].0)
                        + seq!['"', ':'] + sp_print(m[i - 1].1)));
                    let pre = parts.take(i - 1);
                    let post = parts.take(i as int);
                    assert(post.drop_last() =~= pre);
                    assert(post.last() == seq!['"'] + sp_escape_json(m[i - 1].0) + seq![
                        '"',
                        ':',
                    ] + sp_print(m[i - 1].1));
                    if i == 1 {
                        assert(sp_join_comma(post) == post[0]);
                        assert(mid + Seq::<char>::empty() =~= mid);
                        assert(out@ =~= mid + sp_join_comma(post));
                    } else {
                        assert(sp_join_comma(post) == sp_join_comma(pre) + seq![',']
                            + post.last());
                        assert(out@ =~= mid + sp_join_comma(post));
                    }
                }
            }
            out.push('}');
            proof {
                assert(parts.take(n as int) =~= parts);
                assert(out@ =~= old(out)@ + (seq!['{'] + sp_join_comma(parts) + seq!['}']));
            }
        },
    }
}

/// Serialize a value to the transport's canonical text.
pub fn to_json_text(v: &JsonValue) -> (r: String)
    requires
        wf_json(model_of(*v)),
    ensures
        r@ == sp_print(model_of(*v)),
{
    let mut out: Vec<char> = Vec::new();
    push_value(v, &mut out);
    proof {
        assert(Seq::<char>::empty() + sp_print(model_of(*v)) =~= sp_print(model_of(*v)));
    }
    text::chars_to_string(&out)
}

// ---------------------------------------------------------------------------
// object member lookup
// ---------------------------------------------------------------------------

/// The value of the first member named `key`, if any.
pub open spec fn sp_obj_get(pairs: Seq<(Seq<char>, JsonSpec)>, key: Seq<char>) -> Option<
    JsonSpec,
>
    decreases pairs.len(),
{
    if pairs.len() == 0 {
        None
    } else if pairs[0].0 == key {
        Some(pairs[0].1)
    } else {
        sp_obj_get(pairs.skip(1), key)
    }
}

/// Member lookup on the model of a value: `None` when the value is not an
/// object or has no such member.
pub open spec fn sp_get(m: JsonSpec, key: Seq<char>) -> Option<JsonSpec> {
    match m {
        JsonSpec::Obj(pairs) => sp_obj_get(pairs, key),
        _ => None,
    }
}

impl JsonValue {
    /// Look up a member of an object by key.
    pub fn get_field<'a>(&'a self, key: &str) -> (r: Option<&'a JsonValue>)
        ensures
            match r {
                Some(f) => sp_get(model_of(*self), key@) == Some(model_of(*f)),
                None => sp_get(model_of(*self), key@) is None,
            },
    {
        match self {
            JsonValue::Obj(pairs) => {
                let ghost m = member_models_of(pairs@);
                let n = pairs.len();
                let mut i: usize = 0;
                proof {
                    lemma_model_of_obj(*pairs);
                    assert(m.skip(0) =~= m);
                }
                while i < n
                    invariant
                        n == pairs@.len(),
                        i <= n,
                        m == member_models_of(pairs@),
                        model_of(*self) == JsonSpec::Obj(m),
                        sp_obj_get(m, key@) == sp_obj_get(m.skip(i as int), key@),
                    decreases n - i,
                {
                    proof {
                        assert(m.skip(i as int)[0] == m[i as int]);
                        assert(m.skip(i as int).skip(1) =~= m.skip(i as int + 1));
                    }
                    if text::str_eq(pairs[i].0.as_str(), key) {
                        return Some(&pairs[i].1);
                    }
                    i = i + 1;
                }
                proof {
                    assert(m.skip(n as int) =~= Seq::<(Seq<char>, JsonSpec)>::empty());
                }
                None
            },
            _ => None,
        }
    }

    /// The string contents, when the value is a string.
    pub fn as_text(&self) -> (r: Option<String>)
        ensures
            match r {
                Some(s) => model_of(*self) == JsonSpec::Str(s@),
                None => !(model_of(*self) is Str),
            },
    {
        match self {
            JsonValue::Str(s) => Some(s.clone()),
            _ => None,
        }
    }

    /// The numeric value, when the value is a number.
    pub fn as_decimal(&self) -> (r: Option<Decimal>)
        ensures
            match r {
                Some(d) => model_of(*self) == JsonSpec::Num(d.model()),
                None => !(model_of(*self) is Num),
            },
    {
        match self {
            JsonValue::Num(d) => Some(d.duplicate()),
            _ => None,
        }
    }

    /// The numeric value as an unsigned integer: a non-negative number with
    /// no fraction digits.
    pub fn as_u64(&self) -> (r: Option<u64>)
        ensures
            match r {
                Some(n) => model_of(*self) == JsonSpec::Num(
                    NumSpec { neg: false, int_part: n as nat, frac: Seq::<u8>::empty() },
                ),
                None => match model_of(*self) {
                    JsonSpec::Num(n) => n.neg || n.frac.len() != 0,
                    _ => true,
                },
            },
    {
        match self {
            JsonValue::Num(d) => {
                if !d.neg && d.frac.len() == 0 {
                    proof {
                        assert(d.model().frac =~= Seq::<u8>::empty());
                    }
                    Some(d.int_part)
                } else {
                    proof {
                        if d.frac.len() > 0 {
                            assert(d.model().frac.len() > 0);
                        }
                    }
                    None
                }
            },
            _ => None,
        }
    }

    /// The items, when the value is an array.
    pub fn as_items<'a>(&'a self) -> (r: Option<&'a Vec<JsonValue>>)
        ensures
            match r {
                Some(items) => model_of(*self) == JsonSpec::Arr(models_of(items@)),
                None => !(model_of(*self) is Arr),
            },
    {
        match self {
            JsonValue::Arr(items) => {
                proof {
                    lemma_model_of_arr(*items);
                }
                Some(items)
            },
            _ => None,
        }
    }
}

} // verus!


verus! {

// ---------------------------------------------------------------------------
// the parser: specification
// ---------------------------------------------------------------------------

pub open spec fn is_json_ws(c: char) -> bool {
    c == ' ' || c == '\n' || c == '\t' || c == '\r'
}

/// The input with its leading whitespace dropped.
pub open spec fn sp_ws(s: Seq<char>) -> Seq<char>
    decreases s.len(),
{
    if s.len() > 0 && is_json_ws(s[0]) {
        sp_ws(s.skip(1))
    } else {
        s
    }
}

pub proof fn lemma_sp_ws_len(s: Seq<char>)
    ensures
        sp_ws(s).len() <= s.len(),
    decreases s.len(),
{
    if s.len() > 0 && is_json_ws(s[0]) {
        lemma_sp_ws_len(s.skip(1));
    }
}

/// What a backslash escape stands for; `None` for an unsupported escape.
pub open spec fn sp_unescape(c: char) -> Option<char> {
    if c == '"' {
        Some('"')
    } else if c == '\\' {
        Some('\\')
    } else if c == '/' {
        Some('/')
    } else if c == 'n' {
        Some('\n')
    } else if c == 't' {
        Some('\t')
    } else if c == 'r' {
        Some('\r')
    } else if c == 'b' {
        Some('\u{0008}')
    } else if c == 'f' {
        Some('\u{000C}')
    } else {
        None
    }
}

pub open spec fn is_hex_digit_char(c: char) -> bool {
    (48 <= (c as u32) && (c as u32) <= 57) || (97 <= (c as u32) && (c as u32) <= 102) || (65
        <= (c as u32) && (c as u32) <= 70)
}

pub open spec fn sp_hex_val(c: char) -> nat {
    if 48 <= (c as u32) && (c as u32) <= 57 {
        ((c as u32) - 48) as nat
    } else if 97 <= (c as u32) && (c as u32) <= 102 {
        ((c as u32) - 87) as nat
    } else {
        ((c as u32) - 55) as nat
    }
}

pub open spec fn sp_hex4(c0: char, c1: char, c2: char, c3: char) -> nat {
    ((sp_hex_val(c0) * 16 + sp_hex_val(c1)) * 16 + sp_hex_val(c2)) * 16 + sp_hex_val(c3)
}

/// A `\uXXXX` escape at the head of the input: the character it denotes
/// and how many characters of input it spans.  A high surrogate must be
/// followed by a low-surrogate escape, and the pair denotes one character;
/// a lone surrogate denotes nothing.
#[verifier::opaque]
pub open spec fn sp_unicode_escape(s: Seq<char>) -> Option<(char, int)> {
    if s.len() >= 6 && s[0] == '\\' && s[1] == 'u' && is_hex_digit_char(s[2])
        && is_hex_digit_char(s[3]) && is_hex_digit_char(s[4]) && is_hex_digit_char(s[5]) {
        let v = sp_hex4(s[2], s[3], s[4], s[5]);
        if 0xD800 <= v && v < 0xDC00 {
            if s.len() >= 12 && s[6] == '\\' && s[7] == 'u' && is_hex_digit_char(s[8])
                && is_hex_digit_char(s[9]) && is_hex_digit_char(s[10]) && is_hex_digit_char(
                s[11],
            ) {
                let w = sp_hex4(s[8], s[9], s[10], s[11]);
                if 0xDC00 <= w && w < 0xE000 {
                    Some(
                        (
                            (((0x10000 + (v - 0xD800) * 0x400 + (w - 0xDC00)) as u32) as char),
                            12,
                        ),
                    )
                } else {
                    None
                }
            } else {
                None
            }
        } else if 0xDC00 <= v && v < 0xE000 {
            None
        } else {
            Some((((v as u32) as char), 6))
        }
    } else {
        None
    }
}

/// The contents of a string literal, starting just after the opening quote:
/// the decoded characters and the text after the closing quote.
pub open spec fn sp_str_body(s: Seq<char>) -> Option<(Seq<char>, Seq<char>)>
    decreases s.len(),
{
    if s.len() == 0 {
        None
    } else if s[0] == '"' {
        Some((Seq::empty(), s.skip(1)))
    } else if s[0] == '\\' {
        if s.len() < 2 {
            None
        } else if s[1] == 'u' {
            match sp_unicode_escape(s) {
                None => None,
                Some((c, k)) => if 1 <= k <= s.len() {
                    match sp_str_body(s.skip(k)) {
                        None => None,
                        Some((t, r)) => Some((seq![c] + t, r)),
                    }
                } else {
                    None
                },
            }
        } else {
            match sp_unescape(s[1]) {
                None => None,
                Some(e) => match sp_str_body(s.skip(2)) {
                    None => None,
                    Some((t, r)) => Some((seq![e] + t, r)),
                },
            }
        }
    } else {
        match sp_str_body(s.skip(1)) {
            None => None,
            Some((t, r)) => Some((seq![s[0]] + t, r)),
        }
    }
}

pub proof fn lemma_sp_str_body_len(s: Seq<char>)
    ensures
        sp_str_body(s) is Some ==> sp_str_body(s).unwrap().1.len() < s.len(),
    decreases s.len(),
{
    if s.len() > 0 {
        if s[0] == '\\' && s.len() >= 2 {
            if s[1] == 'u' {
                match sp_unicode_escape(s) {
                    Some(p) => {
                        if 1 <= p.1 <= s.len() {
                            lemma_sp_str_body_len(s.skip(p.1));
                        }
                    },
                    None => {},
                }
            } else {
                lemma_sp_str_body_len(s.skip(2));
            }
        } else if s[0] != '"' {
            lemma_sp_str_body_len(s.skip(1));
        }
    }
}

pub open spec fn is_digit_char(c: char) -> bool {
    48 <= (c as u32) <= 57
}

pub open spec fn sp_digit_val(c: char) -> nat {
    ((c as u32) - 48) as nat
}

/// The longest run of digits at the head of the input, and what follows.
pub open spec fn sp_digit_run(s: Seq<char>) -> (Seq<char>, Seq<char>)
    decreases s.len(),
{
    if s.len() > 0 && is_digit_char(s[0]) {
        let r = sp_digit_run(s.skip(1));
        (seq![s[0]] + r.0, r.1)
    } else {
        (Seq::empty(), s)
    }
}

pub proof fn lemma_sp_digit_run_len(s: Seq<char>)
    ensures
        sp_digit_run(s).1.len() + sp_digit_run(s).0.len() == s.len(),
    decreases s.len(),
{
    if s.len() > 0 && is_digit_char(s[0]) {
        lemma_sp_digit_run_len(s.skip(1));
    }
}

/// The number a digit string denotes.
pub open spec fn sp_digits_val(ds: Seq<char>) -> nat
    decreases ds.len(),
{
    if ds.len() == 0 {
        0
    } else {
        sp_digits_val(ds.drop_last()) * 10 + sp_digit_val(ds.last())
    }
}

/// Fraction digits as numeric values.
pub open spec fn sp_frac_vals(ds: Seq<char>) -> Seq<u8> {
    Seq::new(
        ds.len(),
        |i: int|
            if 0 <= i < ds.len() {
                sp_digit_val(ds[i]) as u8
            } else {
                0u8
            },
    )
}

/// The number a digit-value string denotes.
pub open spec fn sp_vals_val(ds: Seq<u8>) -> nat
    decreases ds.len(),
{
    if ds.len() == 0 {
        0
    } else {
        sp_vals_val(ds.drop_last()) * 10 + (ds.last() as nat)
    }
}

pub open spec fn pow10(n: nat) -> nat
    decreases n,
{
    if n == 0 {
        1
    } else {
        10 * pow10((n - 1) as nat)
    }
}

/// Whether an exponent part starts here: `e` or `E`, an optional sign, and
/// at least one digit.
pub open spec fn sp_has_exp(t: Seq<char>) -> bool {
    t.len() >= 2 && (t[0] == 'e' || t[0] == 'E') && (is_digit_char(t[1]) || ((t[1] == '+'
        || t[1] == '-') && t.len() >= 3 && is_digit_char(t[2])))
}

/// The mantissa digits shifted by the exponent `e`: the decimal point of
/// `ivals.fvals` moves `e` places right, exactly.  Integer parts that leave
/// the machine range are refused.
#[verifier::opaque]
pub open spec fn sp_scaled(
    neg: bool,
    ivals: Seq<u8>,
    fvals: Seq<u8>,
    e: int,
    rest: Seq<char>,
) -> Option<(NumSpec, Seq<char>)> {
    let all = ivals + fvals;
    let p = ivals.len() + e;
    if p >= all.len() {
        let iv = sp_vals_val(all) * pow10((p - all.len()) as nat);
        if iv > 0xFFFF_FFFF_FFFF_FFFF {
            None
        } else {
            Some((NumSpec { neg, int_part: iv, frac: Seq::empty() }, rest))
        }
    } else if p <= 0 {
        Some(
            (
                NumSpec {
                    neg,
                    int_part: 0,
                    frac: Seq::new((-p) as nat, |k: int| 0u8) + all,
                },
                rest,
            ),
        )
    } else {
        let iv = sp_vals_val(all.take(p));
        if iv > 0xFFFF_FFFF_FFFF_FFFF {
            None
        } else {
            Some((NumSpec { neg, int_part: iv, frac: all.skip(p) }, rest))
        }
    }
}

/// An exponent part folded into the mantissa.  Exponent magnitudes beyond
/// `0x4000` are refused.
#[verifier::opaque]
pub open spec fn sp_num_exp(neg: bool, ivals: Seq<u8>, fvals: Seq<u8>, t: Seq<char>) -> Option<
    (NumSpec, Seq<char>),
> {
    let eneg = t.len() >= 2 && t[1] == '-';
    let estart: int = if t.len() >= 2 && (t[1] == '+' || t[1] == '-') {
        2
    } else {
        1
    };
    let erun = sp_digit_run(t.skip(estart));
    let ev = sp_digits_val(erun.0);
    if ev > 0x4000 {
        None
    } else {
        let e: int = if eneg {
            -(ev as int)
        } else {
            ev as int
        };
        sp_scaled(neg, ivals, fvals, e, erun.1)
    }
}

/// A number: optional minus sign, digits, optionally a point and more
/// digits, optionally an exponent (folded in exactly).  Integer parts
/// beyond the machine range are refused.
pub open spec fn sp_num(s: Seq<char>) -> Option<(NumSpec, Seq<char>)> {
    let neg = s.len() > 0 && s[0] == '-';
    let s1 = if neg {
        s.skip(1)
    } else {
        s
    };
    let run = sp_digit_run(s1);
    if run.0.len() == 0 {
        None
    } else if sp_digits_val(run.0) > 0xFFFF_FFFF_FFFF_FFFF {
        None
    } else if run.1.len() >= 2 && run.1[0] == '.' && is_digit_char(run.1[1]) {
        let frun = sp_digit_run(run.1.skip(1));
        if sp_has_exp(frun.1) {
            sp_num_exp(neg, sp_frac_vals(run.0), sp_frac_vals(frun.0), frun.1)
        } else {
            Some(
                (
                    NumSpec {
                        neg,
                        int_part: sp_digits_val(run.0),
                        frac: sp_frac_vals(frun.0),
                    },
                    frun.1,
                ),
            )
        }
    } else {
        if sp_has_exp(run.1) {
            sp_num_exp(neg, sp_frac_vals(run.0), Seq::empty(), run.1)
        } else {
            Some(
                (NumSpec { neg, int_part: sp_digits_val(run.0), frac: Seq::empty() }, run.1),
            )
        }
    }
}

proof fn lemma_sp_num_exp_len(neg: bool, ivals: Seq<u8>, fvals: Seq<u8>, t: Seq<char>)
    requires
        sp_has_exp(t),
    ensures
        sp_num_exp(neg, ivals, fvals, t) is Some ==> sp_num_exp(
            neg,
            ivals,
            fvals,
            t,
        ).unwrap().1.len() < t.len(),
{
    reveal(sp_num_exp);
    reveal(sp_scaled);
    let estart: int = if t.len() >= 2 && (t[1] == '+' || t[1] == '-') {
        2
    } else {
        1
    };
    lemma_sp_digit_run_len(t.skip(estart));
    let erun = sp_digit_run(t.skip(estart));
    if estart == 1 {
        assert(t.skip(1)[0] == t[1]);
    } else {
        assert(t.skip(2)[0] == t[2]);
    }
    assert(erun.0.len() >= 1);
}

pub proof fn lemma_sp_num_len(s: Seq<char>)
    ensures
        sp_num(s) is Some ==> sp_num(s).unwrap().1.len() < s.len(),
{
    let neg = s.len() > 0 && s[0] == '-';
    let s1 = if neg {
        s.skip(1)
    } else {
        s
    };
    let run = sp_digit_run(s1);
    lemma_sp_digit_run_len(s1);
    if run.0.len() > 0 && run.1.len() >= 2 && run.1[0] == '.' && is_digit_char(run.1[1]) {
        lemma_sp_digit_run_len(run.1.skip(1));
        let frun = sp_digit_run(run.1.skip(1));
        if sp_has_exp(frun.1) {
            lemma_sp_num_exp_len(neg, sp_frac_vals(run.0), sp_frac_vals(frun.0), frun.1);
        }
    } else if run.0.len() > 0 && sp_has_exp(run.1) {
        lemma_sp_num_exp_len(neg, sp_frac_vals(run.0), Seq::empty(), run.1);
    }
}

/// Does the input start with the given keyword?
pub open spec fn sp_expect(s: Seq<char>, lit: Seq<char>) -> Option<Seq<char>> {
    if s.len() >= lit.len() && s.take(lit.len() as int) == lit {
        Some(s.skip(lit.len() as int))
    } else {
        None
    }
}

/// One value, and the text that follows it.
pub open spec fn sp_value(s: Seq<char>) -> Option<(JsonSpec, Seq<char>)>
    decreases s.len(), 0int,
    via sp_value_dec
{
    let w = sp_ws(s);
    if w.len() == 0 {
        None
    } else if w[0] == '"' {
        match sp_str_body(w.skip(1)) {
            None => None,
            Some((t, r)) => Some((JsonSpec::Str(t), r)),
        }
    } else if w[0] == '[' {
        let t = w.skip(1);
        let u = sp_ws(t);
        if u.len() > 0 && u[0] == ']' {
            Some((JsonSpec::Arr(Seq::empty()), u.skip(1)))
        } else {
            match sp_arr_rest(t) {
                None => None,
                Some((items, r)) => Some((JsonSpec::Arr(items), r)),
            }
        }
    } else if w[0] == '{' {
        let t = w.skip(1);
        let u = sp_ws(t);
        if u.len() > 0 && u[0] == '}' {
            Some((JsonSpec::Obj(Seq::empty()), u.skip(1)))
        } else {
            match sp_obj_rest(t) {
                None => None,
                Some((pairs, r)) => Some((JsonSpec::Obj(pairs), r)),
            }
        }
    } else if w[0] == '-' || is_digit_char(w[0]) {
        match sp_num(w) {
            None => None,
            Some((n, r)) => Some((JsonSpec::Num(n), r)),
        }
    } else if w[0] == 'n' {
        match sp_expect(w, "null"@) {
            None => None,
            Some(r) => Some((JsonSpec::Null, r)),
        }
    } else if w[0] == 't' {
        match sp_expect(w, "true"@) {
            None => None,
            Some(r) => Some((JsonSpec::Bool(true), r)),
        }
    } else if w[0] == 'f' {
        match sp_expect(w, "false"@) {
            None => None,
            Some(r) => Some((JsonSpec::Bool(false), r)),
        }
    } else {
        None
    }
}

/// One or more array items, starting just after the opening bracket (the
/// empty array is handled by the caller), up to and including the closing
/// bracket.
pub open spec fn sp_arr_rest(s: Seq<char>) -> Option<(Seq<JsonSpec>, Seq<char>)>
    decreases s.len(), 1int,
{
    match sp_value(s) {
        None => None,
        Some((v, r)) => {
            let w = sp_ws(r);
            if w.len() == 0 {
                None
            } else if w[0] == ']' {
                Some((seq![v], w.skip(1)))
            } else if w[0] == ',' {
                let r2 = w.skip(1);
                if r2.len() < s.len() {
                    match sp_arr_rest(r2) {
                        None => None,
                        Some((items, rr)) => Some((seq![v] + items, rr)),
                    }
                } else {
                    None
                }
            } else {
                None
            }
        },
    }
}

/// One or more object members, starting just after the opening brace, up to
/// and including the closing brace.
pub open spec fn sp_obj_rest(s: Seq<char>) -> Option<(Seq<(Seq<char>, JsonSpec)>, Seq<char>)>
    decreases s.len(), 1int,
    via sp_obj_rest_dec
{
    let w = sp_ws(s);
    if w.len() == 0 || w[0] != '"' {
        None
    } else {
        match sp_str_body(w.skip(1)) {
            None => None,
            Some((k, r1)) => {
                let w2 = sp_ws(r1);
                if w2.len() == 0 || w2[0] != ':' {
                    None
                } else {
                    match sp_value(w2.skip(1)) {
                        None => None,
                        Some((v, r2)) => {
                            let w3 = sp_ws(r2);
                            if w3.len() == 0 {
                                None
                            } else if w3[0] == '}' {
                                Some((seq![(k, v)], w3.skip(1)))
                            } else if w3[0] == ',' {
                                let r4 = w3.skip(1);
                                if r4.len() < s.len() {
                                    match sp_obj_rest(r4) {
                                        None => None,
                                        Some((pairs, rr)) => Some(
                                            (seq![(k, v)] + pairs, rr),
                                        ),
                                    }
                                } else {
                                    None
                                }
                            } else {
                                None
                            }
                        },
                    }
                }
            },
        }
    }
}

#[via_fn]
proof fn sp_value_dec(s: Seq<char>) {
    lemma_sp_ws_len(s);
}

#[via_fn]
proof fn sp_obj_rest_dec(s: Seq<char>) {
    lemma_sp_ws_len(s);
    let w = sp_ws(s);
    if w.len() > 0 && w[0] == '"' {
        lemma_sp_str_body_len(w.skip(1));
        match sp_str_body(w.skip(1)) {
            Some((k, r1)) => {
                lemma_sp_ws_len(r1);
            },
            None => {},
        }
    }
}

/// The whole input as one value: nothing but whitespace may follow it.
pub open spec fn sp_json(s: Seq<char>) -> Option<JsonSpec> {
    match sp_value(s) {
        None => None,
        Some((v, r)) => if sp_ws(r).len() == 0 {
            Some(v)
        } else {
            None
        },
    }
}

} // verus!

verus! {

// ---------------------------------------------------------------------------
// the parser: execution
// ---------------------------------------------------------------------------

pub open spec fn sp_prepend_str(prefix: Seq<char>, r: Option<(Seq<char>, Seq<char>)>) -> Option<
    (Seq<char>, Seq<char>),
> {
    match r {
        None => None,
        Some((t, rest)) => Some((prefix + t, rest)),
    }
}

pub open spec fn sp_prepend_items(
    prefix: Seq<JsonSpec>,
    r: Option<(Seq<JsonSpec>, Seq<char>)>,
) -> Option<(Seq<JsonSpec>, Seq<char>)> {
    match r {
        None => None,
        Some((items, rest)) => Some((prefix + items, rest)),
    }
}

pub open spec fn sp_prepend_members(
    prefix: Seq<(Seq<char>, JsonSpec)>,
    r: Option<(Seq<(Seq<char>, JsonSpec)>, Seq<char>)>,
) -> Option<(Seq<(Seq<char>, JsonSpec)>, Seq<char>)> {
    match r {
        None => None,
        Some((pairs, rest)) => Some((prefix + pairs, rest)),
    }
}

pub open spec fn sp_wrap_arr(r: Option<(Seq<JsonSpec>, Seq<char>)>) -> Option<
    (JsonSpec, Seq<char>),
> {
    match r {
        None => None,
        Some((items, rest)) => Some((JsonSpec::Arr(items), rest)),
    }
}

pub open spec fn sp_wrap_obj(r: Option<(Seq<(Seq<char>, JsonSpec)>, Seq<char>)>) -> Option<
    (JsonSpec, Seq<char>),
> {
    match r {
        None => None,
        Some((pairs, rest)) => Some((JsonSpec::Obj(pairs), rest)),
    }
}

pub proof fn lemma_wf_list_push(items: Seq<JsonSpec>, x: JsonSpec, k: int)
    requires
        wf_json_list(items, k),
        wf_json(x),
        0 <= k <= items.len(),
    ensures
        wf_json_list(items.push(x), k),
    decreases items.len() - k,
{
    if k < items.len() {
        lemma_wf_list_push(items, x, k + 1);
        assert(items.push(x)[k] == items[k]);
    } else {
        assert(items.push(x)[k] == x);
        assert(wf_json_list(items.push(x), k + 1));
    }
}

pub proof fn lemma_wf_members_push(
    pairs: Seq<(Seq<char>, JsonSpec)>,
    x: (Seq<char>, JsonSpec),
    k: int,
)
    requires
        wf_json_members(pairs, k),
        wf_json(x.1),
        0 <= k <= pairs.len(),
    ensures
        wf_json_members(pairs.push(x), k),
    decreases pairs.len() - k,
{
    if k < pairs.len() {
        lemma_wf_members_push(pairs, x, k + 1);
        assert(pairs.push(x)[k] == pairs[k]);
    } else {
        assert(pairs.push(x)[k] == x);
        assert(wf_json_members(pairs.push(x), k + 1));
    }
}

fn skip_ws(v: &Vec<char>, i: usize) -> (r: usize)
    requires
        i <= v@.len(),
    ensures
        i <= r <= v@.len(),
        sp_ws(v@.skip(i as int)) == v@.skip(r as int),
{
    let len = v.len();
    let mut cur = i;
    while cur < len && (v[cur] == ' ' || v[cur] == '\n' || v[cur] == '\t' || v[cur] == '\r')
        invariant
            len == v@.len(),
            i <= cur <= len,
            sp_ws(v@.skip(i as int)) == sp_ws(v@.skip(cur as int)),
        decreases len - cur,
    {
        proof {
            assert(v@.skip(cur as int)[0] == v@[cur as int]);
            assert(v@.skip(cur as int).skip(1) =~= v@.skip(cur as int + 1));
        }
        cur = cur + 1;
    }
    proof {
        if cur < len {
            assert(v@.skip(cur as int)[0] == v@[cur as int]);
        }
        assert(sp_ws(v@.skip(cur as int)) == v@.skip(cur as int));
    }
    cur
}

fn unescape_char(c: char) -> (r: Option<char>)
    ensures
        r == sp_unescape(c),
{
    if c == '"' {
        Some('"')
    } else if c == '\\' {
        Some('\\')
    } else if c == '/' {
        Some('/')
    } else if c == 'n' {
        Some('\n')
    } else if c == 't' {
        Some('\t')
    } else if c == 'r' {
        Some('\r')
    } else if c == 'b' {
        Some('\u{0008}')
    } else if c == 'f' {
        Some('\u{000C}')
    } else {
        None
    }
}

fn hex_val_of(c: char) -> (r: Option<u32>)
    ensures
        match r {
            Some(h) => is_hex_digit_char(c) && h == sp_hex_val(c) && h < 16,
            None => !is_hex_digit_char(c),
        },
{
    let u = c as u32;
    if 48 <= u && u <= 57 {
        Some(u - 48)
    } else if 97 <= u && u <= 102 {
        Some(u - 87)
    } else if 65 <= u && u <= 70 {
        Some(u - 55)
    } else {
        None
    }
}

/// Relies on `char::from_u32`: `Some` exactly on Unicode scalar values
/// (codepoints outside the surrogate range and at most `0x10FFFF`), and the
/// returned character converts back to the same number.
#[verifier::external_body]
fn char_from_u32(v: u32) -> (r: Option<char>)
    ensures
        match r {
            Some(c) => (c as u32) == v,
            None => !(v < 0xD800 || (0xE000 <= v && v <= 0x10FFFF)),
        },
{
    char::from_u32(v)
}

/// Parse one `\uXXXX` escape (or surrogate pair) starting at `i`.
fn parse_unicode_escape(v: &Vec<char>, i: usize) -> (r: Option<(char, usize)>)
    requires
        i < v@.len(),
    ensures
        match r {
            Some(p) => 1 <= p.1 && i + p.1 <= v@.len() && sp_unicode_escape(
                v@.skip(i as int),
            ) == Some((p.0, p.1 as int)),
            None => sp_unicode_escape(v@.skip(i as int)) is None,
        },
{
    proof {
        reveal(sp_unicode_escape);
    }
    let len = v.len();
    let ghost s = v@.skip(i as int);
    if len - i < 6 {
        proof {
            assert(s.len() < 6);
        }
        return None;
    }
    proof {
        assert(s[0] == v@[i as int]);
        assert(s[1] == v@[i as int + 1]);
        assert(s[2] == v@[i as int + 2]);
        assert(s[3] == v@[i as int + 3]);
        assert(s[4] == v@[i as int + 4]);
        assert(s[5] == v@[i as int + 5]);
    }
    if !(v[i] == '\\' && v[i + 1] == 'u') {
        return None;
    }
    let h0 = hex_val_of(v[i + 2]);
    let h1 = hex_val_of(v[i + 3]);
    let h2 = hex_val_of(v[i + 4]);
    let h3 = hex_val_of(v[i + 5]);
    match (h0, h1, h2, h3) {
        (Some(a), Some(b), Some(c), Some(d)) => {
            let val: u32 = ((a * 16 + b) * 16 + c) * 16 + d;
            proof {
                assert(val == sp_hex4(s[2], s[3], s[4], s[5]));
            }
            if 0xD800 <= val && val < 0xDC00 {
                if len - i < 12 {
                    proof {
                        assert(s.len() < 12);
                    }
                    return None;
                }
                proof {
                    assert(s[6] == v@[i as int + 6]);
                    assert(s[7] == v@[i as int + 7]);
                    assert(s[8] == v@[i as int + 8]);
                    assert(s[9] == v@[i as int + 9]);
                    assert(s[10] == v@[i as int + 10]);
                    assert(s[11] == v@[i as int + 11]);
                }
                if !(v[i + 6] == '\\' && v[i + 7] == 'u') {
                    return None;
                }
                let g0 = hex_val_of(v[i + 8]);
                let g1 = hex_val_of(v[i + 9]);
                let g2 = hex_val_of(v[i + 10]);
                let g3 = hex_val_of(v[i + 11]);
                match (g0, g1, g2, g3) {
                    (Some(a2), Some(b2), Some(c2), Some(d2)) => {
                        let w: u32 = ((a2 * 16 + b2) * 16 + c2) * 16 + d2;
                        proof {
                            assert(w == sp_hex4(s[8], s[9], s[10], s[11]));
                        }
                        if 0xDC00 <= w && w < 0xE000 {
                            let code: u32 = 0x10000 + (val - 0xD800) * 0x400 + (w - 0xDC00);
                            match char_from_u32(code) {
                                Some(ch) => {
                                    proof {
                                        vstd::utf8::char_u32_cast(ch, code);
                                    }
                                    Some((ch, 12))
                                },
                                None => {
                                    proof {
                                        assert(false);
                                    }
                                    None
                                },
                            }
                        } else {
                            None
                        }
                    },
                    _ => None,
                }
            } else if 0xDC00 <= val && val < 0xE000 {
                None
            } else {
                match char_from_u32(val) {
                    Some(ch) => {
                        proof {
                            vstd::utf8::char_u32_cast(ch, val);
                        }
                        Some((ch, 6))
                    },
                    None => {
                        proof {
                            assert(false);
                        }
                        None
                    },
                }
            }
        },
        _ => None,
    }
}

fn parse_str_body(v: &Vec<char>, i: usize) -> (r: Option<(String, usize)>)
    requires
        i <= v@.len(),
    ensures
        match r {
            Some(p) => i < p.1 <= v@.len() && sp_str_body(v@.skip(i as int)) == Some(
                (p.0@, v@.skip(p.1 as int)),
            ),
            None => sp_str_body(v@.skip(i as int)) is None,
        },
{
    let len = v.len();
    let mut out: Vec<char> = Vec::new();
    let mut cur = i;
    proof {
        if sp_str_body(v@.skip(i as int)) is Some {
            let p = sp_str_body(v@.skip(i as int)).unwrap();
            assert(Seq::<char>::empty() + p.0 =~= p.0);
        }
    }
    loop
        invariant
            len == v@.len(),
            i <= cur <= len,
            sp_str_body(v@.skip(i as int)) == sp_prepend_str(
                out@,
                sp_str_body(v@.skip(cur as int)),
            ),
        decreases len - cur,
    {
        if cur >= len {
            proof {
                assert(v@.skip(cur as int).len() == 0);
            }
            return None;
        }
        let c = v[cur];
        proof {
            assert(v@.skip(cur as int)[0] == v@[cur as int]);
        }
        if c == '"' {
            proof {
                assert(v@.skip(cur as int).skip(1) =~= v@.skip(cur as int + 1));
                assert(out@ + Seq::<char>::empty() =~= out@);
            }
            let s = crate::text::chars_to_string(&out);
            return Some((s, cur + 1));
        }
        if c == '\\' {
            if cur + 1 >= len {
                proof {
                    assert(v@.skip(cur as int).len() < 2);
                }
                return None;
            }
            proof {
                assert(v@.skip(cur as int)[1] == v@[cur as int + 1]);
            }
            if v[cur + 1] == 'u' {
                match parse_unicode_escape(v, cur) {
                    None => {
                        return None;
                    },
                    Some((uc, k)) => {
                        proof {
                            assert(v@.skip(cur as int).skip(k as int) =~= v@.skip(
                                cur as int + k,
                            ));
                            let inner = sp_str_body(v@.skip(cur as int + k));
                            if inner is Some {
                                let p = inner.unwrap();
                                assert(out@ + (seq![uc] + p.0) =~= out@.push(uc) + p.0);
                            }
                        }
                        out.push(uc);
                        cur = cur + k;
                    },
                }
                continue;
            }
            match unescape_char(v[cur + 1]) {
                None => {
                    return None;
                },
                Some(e) => {
                    proof {
                        assert(v@.skip(cur as int).skip(2) =~= v@.skip(cur as int + 2));
                        let inner = sp_str_body(v@.skip(cur as int + 2));
                        if inner is Some {
                            let p = inner.unwrap();
                            assert(out@ + (seq![e] + p.0) =~= out@.push(e) + p.0);
                        }
                    }
                    out.push(e);
                    cur = cur + 2;
                },
            }
        } else {
            proof {
                assert(v@.skip(cur as int).skip(1) =~= v@.skip(cur as int + 1));
                let inner = sp_str_body(v@.skip(cur as int + 1));
                if inner is Some {
                    let p = inner.unwrap();
                    assert(out@ + (seq![c] + p.0) =~= out@.push(c) + p.0);
                }
            }
            out.push(c);
            cur = cur + 1;
        }
    }
}

proof fn lemma_digit_run_digits(s: Seq<char>)
    ensures
        forall|k: int|
            0 <= k < sp_digit_run(s).0.len() ==> is_digit_char(#[trigger] sp_digit_run(s).0[k]),
    decreases s.len(),
{
    if s.len() > 0 && is_digit_char(s[0]) {
        lemma_digit_run_digits(s.skip(1));
        let r = sp_digit_run(s.skip(1));
        assert forall|k: int|
            0 <= k < sp_digit_run(s).0.len() implies is_digit_char(
            #[trigger] sp_digit_run(s).0[k],
        ) by {
            if k > 0 {
                assert(sp_digit_run(s).0[k] == r.0[k - 1]);
            }
        }
    }
}

fn scan_digits(v: &Vec<char>, i: usize) -> (r: (usize, Option<u64>))
    requires
        i <= v@.len(),
    ensures
        ({
            let run = sp_digit_run(v@.skip(i as int));
            &&& i <= r.0 <= v@.len()
            &&& r.0 - i == run.0.len()
            &&& v@.skip(r.0 as int) == run.1
            &&& match r.1 {
                Some(val) => val == sp_digits_val(run.0),
                None => sp_digits_val(run.0) > 0xFFFF_FFFF_FFFF_FFFF,
            }
        }),
{
    let len = v.len();
    let ghost run = sp_digit_run(v@.skip(i as int));
    proof {
        lemma_sp_digit_run_len(v@.skip(i as int));
        assert(run.0.skip(0) =~= run.0);
        assert(sp_digits_val(run.0.take(0)) == 0);
    }
    let mut cur = i;
    let mut acc: u64 = 0;
    let mut over = false;
    while cur < len && 48 <= (v[cur] as u32) && (v[cur] as u32) <= 57
        invariant
            len == v@.len(),
            i <= cur <= len,
            run == sp_digit_run(v@.skip(i as int)),
            cur - i <= run.0.len(),
            sp_digit_run(v@.skip(cur as int)) == (run.0.skip(cur - i), run.1),
            !over ==> acc == sp_digits_val(run.0.take(cur - i)),
            over ==> sp_digits_val(run.0.take(cur - i)) > 0xFFFF_FFFF_FFFF_FFFF,
        decreases len - cur,
    {
        let c = v[cur];
        let d: u64 = ((c as u32) - 48) as u64;
        proof {
            let sc = v@.skip(cur as int);
            assert(sc[0] == v@[cur as int]);
            assert(is_digit_char(sc[0]));
            assert(sc.skip(1) =~= v@.skip(cur as int + 1));
            let x = sp_digit_run(v@.skip(cur as int + 1));
            assert(sp_digit_run(sc) == (seq![sc[0]] + x.0, x.1));
            assert(run.0.skip(cur - i) == seq![sc[0]] + x.0);
            assert(run.0.skip(cur - i).len() >= 1);
            assert((seq![sc[0]] + x.0)[0] == sc[0]);
            assert(run.0.skip(cur - i)[0] == sc[0]);
            assert(run.0[cur - i + 0] == run.0.skip(cur - i)[0]);
            assert(run.0[cur - i] == c);
            assert(x.0 =~= run.0.skip(cur - i).skip(1));
            assert(run.0.skip(cur - i).skip(1) =~= run.0.skip(cur + 1 - i));
            let t1 = run.0.take(cur - i);
            let t2 = run.0.take(cur + 1 - i);
            assert(t2.drop_last() =~= t1);
            assert(t2.last() == c);
            assert(sp_digits_val(t2) == sp_digits_val(t1) * 10 + sp_digit_val(c));
            assert(sp_digit_val(c) == d);
        }
        if !over {
            if acc <= (0xFFFF_FFFF_FFFF_FFFFu64 - d) / 10 {
                proof {
                    assert(acc * 10 + d <= 0xFFFF_FFFF_FFFF_FFFF) by (nonlinear_arith)
                        requires
                            d < 10,
                            acc <= (0xFFFF_FFFF_FFFF_FFFFu64 - d) / 10,
                    ;
                }
                acc = acc * 10 + d;
            } else {
                proof {
                    assert(acc * 10 + d > 0xFFFF_FFFF_FFFF_FFFF) by (nonlinear_arith)
                        requires
                            d < 10,
                            acc > (0xFFFF_FFFF_FFFF_FFFFu64 - d) / 10,
                    ;
                }
                over = true;
            }
        } else {
            proof {
                let t1 = run.0.take(cur - i);
                let t2 = run.0.take(cur + 1 - i);
                assert(sp_digits_val(t2) >= sp_digits_val(t1)) by (nonlinear_arith)
                    requires
                        sp_digits_val(t2) == sp_digits_val(t1) * 10 + sp_digit_val(c),
                ;
            }
        }
        cur = cur + 1;
    }
    proof {
        if cur < len {
            assert(v@.skip(cur as int)[0] == v@[cur as int]);
            assert(!is_digit_char(v@.skip(cur as int)[0]));
        }
        assert(sp_digit_run(v@.skip(cur as int)) == (
            Seq::<char>::empty(),
            v@.skip(cur as int),
        ));
        assert(run.0.skip(cur - i) =~= Seq::<char>::empty());
        assert(run.0.len() == cur - i);
        assert(run.0.take(cur - i) =~= run.0);
    }
    (cur, if over {
        None
    } else {
        Some(acc)
    })
}

fn scan_frac(v: &Vec<char>, i: usize) -> (r: (usize, Vec<u8>))
    requires
        i <= v@.len(),
    ensures
        ({
            let run = sp_digit_run(v@.skip(i as int));
            &&& i <= r.0 <= v@.len()
            &&& r.0 - i == run.0.len()
            &&& v@.skip(r.0 as int) == run.1
            &&& r.1@ == sp_frac_vals(run.0)
            &&& forall|k: int| 0 <= k < r.1@.len() ==> r.1@[k] < 10
        }),
{
    let len = v.len();
    let ghost run = sp_digit_run(v@.skip(i as int));
    proof {
        lemma_sp_digit_run_len(v@.skip(i as int));
        lemma_digit_run_digits(v@.skip(i as int));
        assert(run.0.skip(0) =~= run.0);
        assert(sp_frac_vals(run.0).take(0) =~= Seq::<u8>::empty());
    }
    let mut cur = i;
    let mut fr: Vec<u8> = Vec::new();
    while cur < len && 48 <= (v[cur] as u32) && (v[cur] as u32) <= 57
        invariant
            len == v@.len(),
            i <= cur <= len,
            run == sp_digit_run(v@.skip(i as int)),
            cur - i <= run.0.len(),
            sp_digit_run(v@.skip(cur as int)) == (run.0.skip(cur - i), run.1),
            fr@ == sp_frac_vals(run.0).take(cur - i),
            forall|k: int| 0 <= k < fr@.len() ==> fr@[k] < 10,
        decreases len - cur,
    {
        let c = v[cur];
        let d: u8 = ((c as u32) - 48) as u8;
        proof {
            let sc = v@.skip(cur as int);
            assert(sc[0] == v@[cur as int]);
            assert(is_digit_char(sc[0]));
            assert(sc.skip(1) =~= v@.skip(cur as int + 1));
            let x = sp_digit_run(v@.skip(cur as int + 1));
            assert(sp_digit_run(sc) == (seq![sc[0]] + x.0, x.1));
            assert(run.0.skip(cur - i) == seq![sc[0]] + x.0);
            assert(run.0.skip(cur - i).len() >= 1);
            assert((seq![sc[0]] + x.0)[0] == sc[0]);
            assert(run.0.skip(cur - i)[0] == sc[0]);
            assert(run.0[cur - i + 0] == run.0.skip(cur - i)[0]);
            assert(run.0[cur - i] == c);
            assert(x.0 =~= run.0.skip(cur - i).skip(1));
            assert(run.0.skip(cur - i).skip(1) =~= run.0.skip(cur + 1 - i));
            assert(sp_frac_vals(run.0)[cur - i] == sp_digit_val(c) as u8);
            assert(sp_digit_val(c) as u8 == d);
        }
        fr.push(d);
        cur = cur + 1;
        proof {
            assert(fr@ =~= sp_frac_vals(run.0).take(cur - i));
        }
    }
    proof {
        if cur < len {
            assert(v@.skip(cur as int)[0] == v@[cur as int]);
            assert(!is_digit_char(v@.skip(cur as int)[0]));
        }
        assert(sp_digit_run(v@.skip(cur as int)) == (
            Seq::<char>::empty(),
            v@.skip(cur as int),
        ));
        assert(run.0.skip(cur - i) =~= Seq::<char>::empty());
        assert(run.0.len() == cur - i);
        assert(sp_frac_vals(run.0).take(cur - i) =~= sp_frac_vals(run.0));
    }
    (cur, fr)
}

proof fn lemma_pow10_pos(n: nat)
    ensures
        pow10(n) >= 1,
    decreases n,
{
    if n > 0 {
        lemma_pow10_pos((n - 1) as nat);
    }
}

fn exp_ahead(v: &Vec<char>, j: usize) -> (r: bool)
    requires
        j <= v@.len(),
    ensures
        r == sp_has_exp(v@.skip(j as int)),
{
    let len = v.len();
    let ghost t = v@.skip(j as int);
    if len - j < 2 {
        proof {
            assert(t.len() < 2);
        }
        return false;
    }
    proof {
        assert(t[0] == v@[j as int]);
        assert(t[1] == v@[j as int + 1]);
        if len - j >= 3 {
            assert(t[2] == v@[j as int + 2]);
        }
    }
    let c0 = v[j];
    if !(c0 == 'e' || c0 == 'E') {
        return false;
    }
    let c1 = v[j + 1];
    let u1 = c1 as u32;
    if 48 <= u1 && u1 <= 57 {
        return true;
    }
    if (c1 == '+' || c1 == '-') && len - j >= 3 {
        let u2 = v[j + 2] as u32;
        48 <= u2 && u2 <= 57
    } else {
        false
    }
}

fn push_u8s(out: &mut Vec<u8>, xs: &Vec<u8>)
    ensures
        final(out)@ == old(out)@ + xs@,
{
    let mut k: usize = 0;
    while k < xs.len()
        invariant
            k <= xs@.len(),
            out@ == old(out)@ + xs@.take(k as int),
        decreases xs@.len() - k,
    {
        out.push(xs[k]);
        k = k + 1;
        proof {
            assert(out@ =~= old(out)@ + xs@.take(k as int));
        }
    }
    proof {
        assert(xs@.take(xs@.len() as int) =~= xs@);
    }
}

fn vals_to_u64(xs: &Vec<u8>, end: usize) -> (r: Option<u64>)
    requires
        end <= xs@.len(),
        forall|k: int| 0 <= k < xs@.len() ==> xs@[k] < 10,
    ensures
        match r {
            Some(a) => a == sp_vals_val(xs@.take(end as int)),
            None => sp_vals_val(xs@.take(end as int)) > 0xFFFF_FFFF_FFFF_FFFF,
        },
{
    let mut acc: u64 = 0;
    let mut over = false;
    let mut k: usize = 0;
    proof {
        assert(xs@.take(0) =~= Seq::<u8>::empty());
    }
    while k < end
        invariant
            end <= xs@.len(),
            forall|k2: int| 0 <= k2 < xs@.len() ==> xs@[k2] < 10,
            k <= end,
            !over ==> acc == sp_vals_val(xs@.take(k as int)),
            over ==> sp_vals_val(xs@.take(k as int)) > 0xFFFF_FFFF_FFFF_FFFF,
        decreases end - k,
    {
        let d: u64 = xs[k] as u64;
        proof {
            let t1 = xs@.take(k as int);
            let t2 = xs@.take(k as int + 1);
            assert(t2.drop_last() =~= t1);
            assert(t2.last() == xs@[k as int]);
            assert(sp_vals_val(t2) == sp_vals_val(t1) * 10 + (xs@[k as int] as nat));
        }
        if !over {
            if acc <= (0xFFFF_FFFF_FFFF_FFFFu64 - d) / 10 {
                proof {
                    assert(acc * 10 + d <= 0xFFFF_FFFF_FFFF_FFFF) by (nonlinear_arith)
                        requires
                            d < 10,
                            acc <= (0xFFFF_FFFF_FFFF_FFFFu64 - d) / 10,
                    ;
                }
                acc = acc * 10 + d;
            } else {
                proof {
                    assert(acc * 10 + d > 0xFFFF_FFFF_FFFF_FFFF) by (nonlinear_arith)
                        requires
                            d < 10,
                            acc > (0xFFFF_FFFF_FFFF_FFFFu64 - d) / 10,
                    ;
                }
                over = true;
            }
        } else {
            proof {
                let t1 = xs@.take(k as int);
                let t2 = xs@.take(k as int + 1);
                assert(sp_vals_val(t2) >= sp_vals_val(t1)) by (nonlinear_arith)
                    requires
                        sp_vals_val(t2) == sp_vals_val(t1) * 10 + (xs@[k as int] as nat),
                ;
            }
        }
        k = k + 1;
    }
    if over {
        None
    } else {
        Some(acc)
    }
}

/// Parse the exponent part at `t` and fold it into the mantissa digits.
#[verifier::rlimit(60)]
fn fold_exponent(v: &Vec<char>, neg: bool, ivals: Vec<u8>, fvals: Vec<u8>, t: usize) -> (r:
    Option<(Decimal, usize)>)
    requires
        t <= v@.len(),
        sp_has_exp(v@.skip(t as int)),
        forall|k: int| 0 <= k < ivals@.len() ==> ivals@[k] < 10,
        forall|k: int| 0 <= k < fvals@.len() ==> fvals@[k] < 10,
    ensures
        match r {
            Some(p) => t < p.1 <= v@.len() && p.0.wf() && sp_num_exp(
                neg,
                ivals@,
                fvals@,
                v@.skip(t as int),
            ) == Some((p.0.model(), v@.skip(p.1 as int))),
            None => sp_num_exp(neg, ivals@, fvals@, v@.skip(t as int)) is None,
        },
{
    proof {
        reveal(sp_num_exp);
    }
    let len = v.len();
    let ghost texp = v@.skip(t as int);
    proof {
        assert(texp.len() >= 2);
        assert(texp[1] == v@[t as int + 1]);
    }
    let c1 = v[t + 1];
    let eneg = c1 == '-';
    let estart = if c1 == '+' || c1 == '-' {
        t + 2
    } else {
        t + 1
    };
    proof {
        if estart == t + 2 {
            assert(texp.len() >= 3);
            assert(texp[2] == v@[t as int + 2]);
        }
        assert(texp.skip(estart as int - t) =~= v@.skip(estart as int));
    }
    let ghost erun = sp_digit_run(v@.skip(estart as int));
    let (je, evopt) = scan_digits(v, estart);
    proof {
        assert(v@.skip(estart as int)[0] == v@[estart as int]);
        assert(erun.0.len() >= 1);
    }
    match evopt {
        None => {
            proof {
                assert(sp_digits_val(erun.0) > 0x4000);
            }
            None
        },
        Some(ev) => {
            if ev > 0x4000 {
                return None;
            }
            proof {
                reveal(sp_scaled);
            }
            let ghost e: int = if eneg {
                -(ev as int)
            } else {
                ev as int
            };
            let mut all: Vec<u8> = Vec::new();
            push_u8s(&mut all, &ivals);
            push_u8s(&mut all, &fvals);
            proof {
                assert(Seq::<u8>::empty() + ivals@ =~= ivals@);
                assert(all@ == ivals@ + fvals@);
                assert forall|k: int| 0 <= k < all@.len() implies all@[k] < 10 by {
                    if k < ivals@.len() {
                        assert(all@[k] == ivals@[k]);
                    } else {
                        assert(all@[k] == fvals@[k - ivals@.len()]);
                    }
                }
            }
            let ilen = ivals.len();
            let alen = all.len();
            let p: i128 = (ilen as i128) + (if eneg {
                -(ev as i128)
            } else {
                ev as i128
            });
            proof {
                assert(p == ivals@.len() + e);
            }
            if p >= (alen as i128) {
                proof {
                    assert(0 <= p - (alen as i128));
                    assert(p - (alen as i128) <= 0x4000);
                }
                let kpow: u64 = (p - (alen as i128)) as u64;
                match vals_to_u64(&all, alen) {
                    None => {
                        proof {
                            assert(all@.take(alen as int) =~= all@);
                            lemma_pow10_pos((p - all@.len()) as nat);
                            assert(sp_vals_val(all@) * pow10((p - all@.len()) as nat)
                                >= sp_vals_val(all@)) by (nonlinear_arith)
                                requires
                                    pow10((p - all@.len()) as nat) >= 1,
                            ;
                        }
                        None
                    },
                    Some(base) => {
                        proof {
                            assert(all@.take(alen as int) =~= all@);
                        }
                        let mut acc: u64 = base;
                        let mut tc: u64 = 0;
                        let mut too_big = false;
                        while tc < kpow
                            invariant
                                tc <= kpow,
                                kpow as int == p - all@.len(),
                                too_big ==> tc == kpow,
                                !too_big ==> acc * pow10((kpow - tc) as nat) == sp_vals_val(
                                    all@,
                                ) * pow10(kpow as nat),
                                too_big ==> sp_vals_val(all@) * pow10(kpow as nat)
                                    > 0xFFFF_FFFF_FFFF_FFFF,
                            decreases kpow - tc,
                        {
                            proof {
                                assert(pow10((kpow - tc) as nat) == 10 * pow10(
                                    (kpow - tc - 1) as nat,
                                ));
                            }
                            if acc <= 0xFFFF_FFFF_FFFF_FFFFu64 / 10 {
                                proof {
                                    assert(acc * 10 <= 0xFFFF_FFFF_FFFF_FFFF)
                                        by (nonlinear_arith)
                                        requires
                                            acc <= 0xFFFF_FFFF_FFFF_FFFFu64 / 10,
                                    ;
                                    assert((acc * 10) * pow10((kpow - tc - 1) as nat) == acc
                                        * pow10((kpow - tc) as nat)) by (nonlinear_arith)
                                        requires
                                            pow10((kpow - tc) as nat) == 10 * pow10(
                                                (kpow - tc - 1) as nat,
                                            ),
                                    ;
                                }
                                acc = acc * 10;
                                tc = tc + 1;
                            } else {
                                proof {
                                    lemma_pow10_pos((kpow - tc - 1) as nat);
                                    assert(acc * 10 > 0xFFFF_FFFF_FFFF_FFFF)
                                        by (nonlinear_arith)
                                        requires
                                            acc > 0xFFFF_FFFF_FFFF_FFFFu64 / 10,
                                    ;
                                    assert(sp_vals_val(all@) * pow10(kpow as nat) >= acc * 10)
                                        by (nonlinear_arith)
                                        requires
                                            acc * pow10((kpow - tc) as nat) == sp_vals_val(
                                                all@,
                                            ) * pow10(kpow as nat),
                                            pow10((kpow - tc) as nat) == 10 * pow10(
                                                (kpow - tc - 1) as nat,
                                            ),
                                            pow10((kpow - tc - 1) as nat) >= 1,
                                    ;
                                }
                                too_big = true;
                                tc = kpow;
                            }
                        }
                        if too_big {
                            proof {
                                reveal(sp_num_exp);
                                reveal(sp_scaled);
                            }
                            return None;
                        }
                        proof {
                            reveal(sp_num_exp);
                            reveal(sp_scaled);
                            assert(pow10(0) == 1);
                            assert((kpow - tc) as nat == 0);
                            assert(acc * pow10(0nat) == acc);
                            assert(acc == sp_vals_val(all@) * pow10(kpow as nat));
                        }
                        let d = Decimal { neg, int_part: acc, frac: Vec::new() };
                        proof {
                            assert(d.model().frac =~= Seq::<u8>::empty());
                        }
                        Some((d, je))
                    },
                }
            } else if p <= 0 {
                proof {
                    assert(0 <= -p);
                    assert(-p <= 0x4000);
                }
                let z: usize = (-p) as usize;
                let mut frac: Vec<u8> = Vec::new();
                let mut zi: usize = 0;
                proof {
                    assert(frac@ =~= Seq::new(0, |k: int| 0u8));
                }
                while zi < z
                    invariant
                        zi <= z,
                        frac@ == Seq::new(zi as nat, |k: int| 0u8),
                    decreases z - zi,
                {
                    frac.push(0u8);
                    zi = zi + 1;
                    proof {
                        assert(frac@ =~= Seq::new(zi as nat, |k: int| 0u8));
                    }
                }
                push_u8s(&mut frac, &all);
                let d = Decimal { neg, int_part: 0, frac };
                proof {
                    assert(d.model().frac =~= Seq::new((-p) as nat, |k: int| 0u8) + all@);
                    assert forall|k: int| 0 <= k < d.frac@.len() implies d.frac@[k] < 10 by {
                        if k >= z {
                            assert(d.frac@[k] == all@[k - z]);
                        }
                    }
                }
                Some((d, je))
            } else {
                let pp: usize = p as usize;
                match vals_to_u64(&all, pp) {
                    None => None,
                    Some(iv) => {
                        let mut frac: Vec<u8> = Vec::new();
                        let mut fi: usize = pp;
                        while fi < alen
                            invariant
                                pp <= fi <= alen,
                                alen == all@.len(),
                                frac@ == all@.subrange(pp as int, fi as int),
                            decreases alen - fi,
                        {
                            frac.push(all[fi]);
                            fi = fi + 1;
                            proof {
                                assert(frac@ =~= all@.subrange(pp as int, fi as int));
                            }
                        }
                        proof {
                            assert(all@.subrange(pp as int, alen as int) =~= all@.skip(
                                pp as int,
                            ));
                        }
                        let d = Decimal { neg, int_part: iv, frac };
                        proof {
                            assert forall|k: int| 0 <= k < d.frac@.len() implies d.frac@[k]
                                < 10 by {
                                assert(d.frac@[k] == all@[pp + k]);
                            }
                        }
                        Some((d, je))
                    },
                }
            }
        },
    }
}

fn parse_number(v: &Vec<char>, i: usize) -> (r: Option<(Decimal, usize)>)
    requires
        i < v@.len(),
        v@[i as int] == '-' || is_digit_char(v@[i as int]),
    ensures
        match r {
            Some(p) => i < p.1 <= v@.len() && p.0.wf() && sp_num(v@.skip(i as int)) == Some(
                (p.0.model(), v@.skip(p.1 as int)),
            ),
            None => sp_num(v@.skip(i as int)) is None,
        },
{
    let len = v.len();
    let ghost s = v@.skip(i as int);
    proof {
        assert(s[0] == v@[i as int]);
    }
    let neg = v[i] == '-';
    let start = if neg {
        i + 1
    } else {
        i
    };
    proof {
        if neg {
            assert(s.skip(1) =~= v@.skip(start as int));
        } else {
            assert(v@.skip(start as int) == s);
        }
    }
    let ghost s1 = v@.skip(start as int);
    let ghost run = sp_digit_run(s1);
    let (j1, ival) = scan_digits(v, start);
    if j1 == start {
        proof {
            assert(run.0.len() == 0);
            assert(sp_num(s) is None);
        }
        return None;
    }
    match ival {
        None => {
            proof {
                assert(sp_num(s) is None);
            }
            None
        },
        Some(val) => {
            if j1 < len - 1 && v[j1] == '.' && {
                let u = v[j1 + 1] as u32;
                48 <= u && u <= 57
            } {
                proof {
                    assert(run.1 == v@.skip(j1 as int));
                    assert(run.1[0] == v@[j1 as int]);
                    assert(run.1[1] == v@[j1 as int + 1]);
                    assert(run.1.len() >= 2);
                    assert(run.1.skip(1) =~= v@.skip(j1 as int + 1));
                }
                let (j2, fr) = scan_frac(v, j1 + 1);
                let ghost frun = sp_digit_run(v@.skip(j1 as int + 1));
                proof {
                    assert(frun.0.len() >= 1) by {
                        assert(v@.skip(j1 as int + 1)[0] == v@[j1 as int + 1]);
                    }
                    assert(frun.1 == v@.skip(j2 as int));
                }
                if exp_ahead(v, j2) {
                    let (j1b, ivec) = scan_frac(v, start);
                    proof {
                        assert(j1b == j1);
                        assert(ivec@ == sp_frac_vals(run.0));
                        assert(fr@ == sp_frac_vals(frun.0));
                    }
                    match fold_exponent(v, neg, ivec, fr, j2) {
                        None => {
                            proof {
                                assert(sp_num(s) is None);
                            }
                            None
                        },
                        Some((d, je)) => {
                            proof {
                                assert(sp_num(s) == Some((d.model(), v@.skip(je as int))));
                            }
                            Some((d, je))
                        },
                    }
                } else {
                    let d = Decimal { neg, int_part: val, frac: fr };
                    proof {
                        assert(d.model() == (NumSpec {
                            neg,
                            int_part: sp_digits_val(run.0),
                            frac: sp_frac_vals(frun.0),
                        }));
                        assert(sp_num(s) == Some((d.model(), frun.1)));
                    }
                    Some((d, j2))
                }
            } else {
                proof {
                    let cond = run.1.len() >= 2 && run.1[0] == '.' && is_digit_char(run.1[1]);
                    assert(run.1 == v@.skip(j1 as int));
                    if j1 < len {
                        assert(run.1[0] == v@[j1 as int]);
                    }
                    if j1 < len - 1 {
                        assert(run.1[1] == v@[j1 as int + 1]);
                    }
                    assert(!cond);
                }
                if exp_ahead(v, j1) {
                    let (j1b, ivec) = scan_frac(v, start);
                    let empty_f: Vec<u8> = Vec::new();
                    proof {
                        assert(j1b == j1);
                        assert(ivec@ == sp_frac_vals(run.0));
                        assert(empty_f@ =~= Seq::<u8>::empty());
                    }
                    match fold_exponent(v, neg, ivec, empty_f, j1) {
                        None => {
                            proof {
                                assert(sp_num(s) is None);
                            }
                            None
                        },
                        Some((d, je)) => {
                            proof {
                                assert(sp_num(s) == Some((d.model(), v@.skip(je as int))));
                            }
                            Some((d, je))
                        },
                    }
                } else {
                    let d = Decimal { neg, int_part: val, frac: Vec::new() };
                    proof {
                        assert(d.model().frac =~= Seq::<u8>::empty());
                        assert(sp_num(s) == Some((d.model(), run.1)));
                    }
                    Some((d, j1))
                }
            }
        },
    }
}

} // verus!

verus! {

/// Parse one value starting at `i` (leading whitespace allowed), returning
/// it with the index just past it.
pub fn parse_value(v: &Vec<char>, i: usize) -> (r: Option<(JsonValue, usize)>)
    requires
        i <= v@.len(),
    ensures
        match r {
            Some(p) => i < p.1 <= v@.len() && wf_json(model_of(p.0)) && sp_value(
                v@.skip(i as int),
            ) == Some((model_of(p.0), v@.skip(p.1 as int))),
            None => sp_value(v@.skip(i as int)) is None,
        },
    decreases v@.len() - i,
{
    let len = v.len();
    let w = skip_ws(v, i);
    let ghost s = v@.skip(i as int);
    let ghost ws = v@.skip(w as int);
    proof {
        assert(sp_ws(s) == ws);
    }
    if w >= len {
        proof {
            assert(ws.len() == 0);
        }
        return None;
    }
    let c = v[w];
    proof {
        assert(ws[0] == v@[w as int]);
    }
    if c == '"' {
        proof {
            assert(ws.skip(1) =~= v@.skip(w as int + 1));
        }
        match parse_str_body(v, w + 1) {
            None => {
                return None;
            },
            Some((t, j)) => {
                let jv = JsonValue::Str(t);
                return Some((jv, j));
            },
        }
    }
    if c == '[' {
        let t0 = w + 1;
        proof {
            assert(ws.skip(1) =~= v@.skip(t0 as int));
        }
        let ghost t_seq = v@.skip(t0 as int);
        let u = skip_ws(v, t0);
        proof {
            assert(sp_ws(t_seq) == v@.skip(u as int));
        }
        if u < len && v[u] == ']' {
            proof {
                assert(v@.skip(u as int)[0] == v@[u as int]);
                assert(v@.skip(u as int).skip(1) =~= v@.skip(u as int + 1));
            }
            let items: Vec<JsonValue> = Vec::new();
            proof {
                lemma_model_of_arr(items);
                assert(models_of(items@) =~= Seq::<JsonSpec>::empty());
            }
            let jv = JsonValue::Arr(items);
            return Some((jv, u + 1));
        }
        proof {
            let useq = v@.skip(u as int);
            if u < len {
                assert(useq[0] == v@[u as int]);
            } else {
                assert(useq.len() == 0);
            }
            assert(!(sp_ws(t_seq).len() > 0 && sp_ws(t_seq)[0] == ']'));
        }
        let mut items: Vec<JsonValue> = Vec::new();
        let mut cur = t0;
        proof {
            assert(models_of(items@) =~= Seq::<JsonSpec>::empty());
            if sp_arr_rest(t_seq) is Some {
                let p = sp_arr_rest(t_seq).unwrap();
                assert(Seq::<JsonSpec>::empty() + p.0 =~= p.0);
            }
            assert(wf_json_list(models_of(items@), 0));
        }
        loop
            invariant
                len == v@.len(),
                i < cur <= len,
                s == v@.skip(i as int),
                t_seq == v@.skip(t0 as int),
                i <= t0 <= cur,
                sp_value(s) == sp_wrap_arr(sp_arr_rest(t_seq)),
                sp_arr_rest(t_seq) == sp_prepend_items(
                    models_of(items@),
                    sp_arr_rest(v@.skip(cur as int)),
                ),
                wf_json_list(models_of(items@), 0),
            decreases len - cur,
        {
            let ghost cur_seq = v@.skip(cur as int);
            match parse_value(v, cur) {
                None => {
                    return None;
                },
                Some((jv, j)) => {
                    let w2 = skip_ws(v, j);
                    proof {
                        assert(sp_ws(v@.skip(j as int)) == v@.skip(w2 as int));
                    }
                    if w2 >= len {
                        proof {
                            assert(v@.skip(w2 as int).len() == 0);
                        }
                        return None;
                    }
                    let c2 = v[w2];
                    proof {
                        assert(v@.skip(w2 as int)[0] == v@[w2 as int]);
                        assert(v@.skip(w2 as int).skip(1) =~= v@.skip(w2 as int + 1));
                    }
                    if c2 == ']' {
                        proof {
                            assert(sp_arr_rest(cur_seq) == Some(
                                (seq![model_of(jv)], v@.skip(w2 as int + 1)),
                            ));
                        }
                        let ghost old_items = items@;
                        items.push(jv);
                        proof {
                            assert(models_of(items@) =~= models_of(old_items).push(
                                model_of(jv),
                            ));
                            assert(models_of(old_items) + seq![model_of(jv)] =~= models_of(
                                items@,
                            ));
                            lemma_wf_list_push(models_of(old_items), model_of(jv), 0);
                            lemma_model_of_arr(items);
                        }
                        let out = JsonValue::Arr(items);
                        return Some((out, w2 + 1));
                    } else if c2 == ',' {
                        proof {
                            assert(v@.skip(w2 as int + 1).len() < cur_seq.len());
                            assert(sp_arr_rest(cur_seq) == sp_prepend_items(
                                seq![model_of(jv)],
                                sp_arr_rest(v@.skip(w2 as int + 1)),
                            ));
                        }
                        let ghost old_items = items@;
                        items.push(jv);
                        proof {
                            assert(models_of(items@) =~= models_of(old_items).push(
                                model_of(jv),
                            ));
                            let x = sp_arr_rest(v@.skip(w2 as int + 1));
                            if x is Some {
                                let p = x.unwrap();
                                assert(models_of(old_items) + (seq![model_of(jv)] + p.0)
                                    =~= models_of(items@) + p.0);
                            }
                            lemma_wf_list_push(models_of(old_items), model_of(jv), 0);
                        }
                        cur = w2 + 1;
                    } else {
                        return None;
                    }
                },
            }
        }
    }
    if c == '{' {
        let t0 = w + 1;
        proof {
            assert(ws.skip(1) =~= v@.skip(t0 as int));
        }
        let ghost t_seq = v@.skip(t0 as int);
        let u = skip_ws(v, t0);
        proof {
            assert(sp_ws(t_seq) == v@.skip(u as int));
        }
        if u < len && v[u] == '}' {
            proof {
                assert(v@.skip(u as int)[0] == v@[u as int]);
                assert(v@.skip(u as int).skip(1) =~= v@.skip(u as int + 1));
            }
            let pairs: Vec<(String, JsonValue)> = Vec::new();
            proof {
                lemma_model_of_obj(pairs);
                assert(member_models_of(pairs@) =~= Seq::<(Seq<char>, JsonSpec)>::empty());
            }
            let jv = JsonValue::Obj(pairs);
            return Some((jv, u + 1));
        }
        proof {
            let useq = v@.skip(u as int);
            if u < len {
                assert(useq[0] == v@[u as int]);
            } else {
                assert(useq.len() == 0);
            }
            assert(!(sp_ws(t_seq).len() > 0 && sp_ws(t_seq)[0] == '}'));
        }
        let mut pairs: Vec<(String, JsonValue)> = Vec::new();
        let mut cur = t0;
        proof {
            assert(member_models_of(pairs@) =~= Seq::<(Seq<char>, JsonSpec)>::empty());
            if sp_obj_rest(t_seq) is Some {
                let p = sp_obj_rest(t_seq).unwrap();
                assert(Seq::<(Seq<char>, JsonSpec)>::empty() + p.0 =~= p.0);
            }
            assert(wf_json_members(member_models_of(pairs@), 0));
        }
        loop
            invariant
                len == v@.len(),
                i < cur <= len,
                s == v@.skip(i as int),
                t_seq == v@.skip(t0 as int),
                i <= t0 <= cur,
                sp_value(s) == sp_wrap_obj(sp_obj_rest(t_seq)),
                sp_obj_rest(t_seq) == sp_prepend_members(
                    member_models_of(pairs@),
                    sp_obj_rest(v@.skip(cur as int)),
                ),
                wf_json_members(member_models_of(pairs@), 0),
            decreases len - cur,
        {
            let ghost cur_seq = v@.skip(cur as int);
            let k0 = skip_ws(v, cur);
            proof {
                assert(sp_ws(cur_seq) == v@.skip(k0 as int));
            }
            if k0 >= len {
                proof {
                    assert(v@.skip(k0 as int).len() == 0);
                }
                return None;
            }
            proof {
                assert(v@.skip(k0 as int)[0] == v@[k0 as int]);
            }
            if v[k0] != '"' {
                return None;
            }
            proof {
                assert(v@.skip(k0 as int).skip(1) =~= v@.skip(k0 as int + 1));
            }
            match parse_str_body(v, k0 + 1) {
                None => {
                    return None;
                },
                Some((key, j1)) => {
                    let w2 = skip_ws(v, j1);
                    proof {
                        assert(sp_ws(v@.skip(j1 as int)) == v@.skip(w2 as int));
                    }
                    if w2 >= len {
                        proof {
                            assert(v@.skip(w2 as int).len() == 0);
                        }
                        return None;
                    }
                    proof {
                        assert(v@.skip(w2 as int)[0] == v@[w2 as int]);
                    }
                    if v[w2] != ':' {
                        return None;
                    }
                    proof {
                        assert(v@.skip(w2 as int).skip(1) =~= v@.skip(w2 as int + 1));
                    }
                    match parse_value(v, w2 + 1) {
                        None => {
                            return None;
                        },
                        Some((jv, j2)) => {
                            let w3 = skip_ws(v, j2);
                            proof {
                                assert(sp_ws(v@.skip(j2 as int)) == v@.skip(w3 as int));
                            }
                            if w3 >= len {
                                proof {
                                    assert(v@.skip(w3 as int).len() == 0);
                                }
                                return None;
                            }
                            let c3 = v[w3];
                            proof {
                                assert(v@.skip(w3 as int)[0] == v@[w3 as int]);
                                assert(v@.skip(w3 as int).skip(1) =~= v@.skip(
                                    w3 as int + 1,
                                ));
                            }
                            if c3 == '}' {
                                proof {
                                    assert(sp_obj_rest(cur_seq) == Some(
                                        (
                                            seq![(key@, model_of(jv))],
                                            v@.skip(w3 as int + 1),
                                        ),
                                    ));
                                }
                                let ghost old_pairs = pairs@;
                                pairs.push((key, jv));
                                proof {
                                    assert(member_models_of(pairs@) =~= member_models_of(
                                        old_pairs,
                                    ).push((pairs@.last().0@, model_of(pairs@.last().1))));
                                    assert(member_models_of(old_pairs) + seq![
                                        member_models_of(pairs@).last(),
                                    ] =~= member_models_of(pairs@));
                                    lemma_wf_members_push(
                                        member_models_of(old_pairs),
                                        member_models_of(pairs@).last(),
                                        0,
                                    );
                                    lemma_model_of_obj(pairs);
                                }
                                let out = JsonValue::Obj(pairs);
                                return Some((out, w3 + 1));
                            } else if c3 == ',' {
                                proof {
                                    assert(v@.skip(w3 as int + 1).len() < cur_seq.len());
                                    assert(sp_obj_rest(cur_seq) == sp_prepend_members(
                                        seq![(key@, model_of(jv))],
                                        sp_obj_rest(v@.skip(w3 as int + 1)),
                                    ));
                                }
                                let ghost old_pairs = pairs@;
                                let ghost entry = (key@, model_of(jv));
                                pairs.push((key, jv));
                                proof {
                                    assert(member_models_of(pairs@) =~= member_models_of(
                                        old_pairs,
                                    ).push(entry));
                                    let x = sp_obj_rest(v@.skip(w3 as int + 1));
                                    if x is Some {
                                        let p = x.unwrap();
                                        assert(member_models_of(old_pairs) + (seq![entry]
                                            + p.0) =~= member_models_of(pairs@) + p.0);
                                    }
                                    lemma_wf_members_push(
                                        member_models_of(old_pairs),
                                        entry,
                                        0,
                                    );
                                }
                                cur = w3 + 1;
                            } else {
                                return None;
                            }
                        },
                    }
                },
            }
        }
    }
    if c == '-' || {
        let u = c as u32;
        48 <= u && u <= 57
    } {
        match parse_number(v, w) {
            None => {
                return None;
            },
            Some((d, j)) => {
                let jv = JsonValue::Num(d);
                return Some((jv, j));
            },
        }
    }
    if c == 'n' {
        let pat = crate::text::to_char_vec("null");
        proof {
            reveal_strlit("null");
        }
        if 4 <= len - w && crate::text::match_at(v, w, &pat) {
            proof {
                assert(ws.take(4) =~= v@.subrange(w as int, w as int + 4));
                assert(ws.skip(4) =~= v@.skip(w as int + 4));
                assert(sp_expect(ws, "null"@) == Some(v@.skip(w as int + 4)));
            }
            return Some((JsonValue::Null, w + 4));
        } else {
            proof {
                if 4 <= len - w {
                    assert(ws.take(4) =~= v@.subrange(w as int, w as int + 4));
                } else {
                    assert(ws.len() < 4);
                }
                assert(sp_expect(ws, "null"@) is None);
            }
            return None;
        }
    }
    if c == 't' {
        let pat = crate::text::to_char_vec("true");
        proof {
            reveal_strlit("true");
        }
        if 4 <= len - w && crate::text::match_at(v, w, &pat) {
            proof {
                assert(ws.take(4) =~= v@.subrange(w as int, w as int + 4));
                assert(ws.skip(4) =~= v@.skip(w as int + 4));
                assert(sp_expect(ws, "true"@) == Some(v@.skip(w as int + 4)));
            }
            return Some((JsonValue::Bool(true), w + 4));
        } else {
            proof {
                if 4 <= len - w {
                    assert(ws.take(4) =~= v@.subrange(w as int, w as int + 4));
                } else {
                    assert(ws.len() < 4);
                }
                assert(sp_expect(ws, "true"@) is None);
            }
            return None;
        }
    }
    if c == 'f' {
        let pat = crate::text::to_char_vec("false");
        proof {
            reveal_strlit("false");
        }
        if 5 <= len - w && crate::text::match_at(v, w, &pat) {
            proof {
                assert(ws.take(5) =~= v@.subrange(w as int, w as int + 5));
                assert(ws.skip(5) =~= v@.skip(w as int + 5));
                assert(sp_expect(ws, "false"@) == Some(v@.skip(w as int + 5)));
            }
            return Some((JsonValue::Bool(false), w + 5));
        } else {
            proof {
                if 5 <= len - w {
                    assert(ws.take(5) =~= v@.subrange(w as int, w as int + 5));
                } else {
                    assert(ws.len() < 5);
                }
                assert(sp_expect(ws, "false"@) is None);
            }
            return None;
        }
    }
    None
}

/// Parse a complete text: one value with nothing but whitespace around it.
pub fn parse_json(s: &str) -> (r: Option<JsonValue>)
    ensures
        match r {
            Some(jv) => sp_json(s@) == Some(model_of(jv)) && wf_json(model_of(jv)),
            None => sp_json(s@) is None,
        },
{
    let v = crate::text::to_char_vec(s);
    proof {
        assert(v@.skip(0) =~= v@);
    }
    match parse_value(&v, 0) {
        None => None,
        Some((jv, j)) => {
            let e = skip_ws(&v, j);
            if e == v.len() {
                proof {
                    assert(v@.skip(e as int).len() == 0);
                }
                Some(jv)
            } else {
                proof {
                    assert(v@.skip(e as int).len() > 0);
                }
                None
            }
        },
    }
}

} // verus!

verus! {

// ---------------------------------------------------------------------------
// the round-trip law: parsing inverts printing
// ---------------------------------------------------------------------------

proof fn lemma_ws_noop(s: Seq<char>)
    requires
        s.len() == 0 || !is_json_ws(s[0]),
    ensures
        sp_ws(s) == s,
{
}

/// A printed value starts with one of these characters.
pub open spec fn is_print_start(c: char) -> bool {
    c == '"' || c == '[' || c == '{' || c == '-' || is_digit_char(c) || c == 'n' || c == 't'
        || c == 'f'
}

proof fn lemma_digit_char_props(d: nat)
    requires
        d < 10,
    ensures
        is_digit_char(text::spec_digit_char(d)),
        sp_digit_val(text::spec_digit_char(d)) == d,
{
}

proof fn lemma_u64_digits_props(n: nat)
    ensures
        text::spec_u64_digits(n).len() >= 1,
        forall|k: int|
            0 <= k < text::spec_u64_digits(n).len() ==> is_digit_char(
                #[trigger] text::spec_u64_digits(n)[k],
            ),
        sp_digits_val(text::spec_u64_digits(n)) == n,
    decreases n,
{
    if n < 10 {
        lemma_digit_char_props(n);
        let ds = text::spec_u64_digits(n);
        assert(ds == seq![text::spec_digit_char(n)]);
        assert(ds.drop_last() =~= Seq::<char>::empty());
        assert(sp_digits_val(ds) == sp_digits_val(ds.drop_last()) * 10 + sp_digit_val(
            ds.last(),
        ));
    } else {
        lemma_u64_digits_props(n / 10);
        lemma_digit_char_props(n % 10);
        let hd = text::spec_u64_digits(n / 10);
        let ds = text::spec_u64_digits(n);
        assert(ds == hd + seq![text::spec_digit_char(n % 10)]);
        assert(ds.drop_last() =~= hd);
        assert(ds.last() == text::spec_digit_char(n % 10));
        assert(sp_digits_val(ds) == sp_digits_val(hd) * 10 + (n % 10));
        assert(forall|k: int|
            0 <= k < ds.len() - 1 ==> #[trigger] ds[k] == hd[k]);
    }
}

proof fn lemma_digit_run_concat(ds: Seq<char>, tail: Seq<char>)
    requires
        forall|k: int| 0 <= k < ds.len() ==> is_digit_char(#[trigger] ds[k]),
        tail.len() == 0 || !is_digit_char(tail[0]),
    ensures
        sp_digit_run(ds + tail) == (ds, tail),
    decreases ds.len(),
{
    if ds.len() == 0 {
        assert(ds + tail =~= tail);
        assert(ds =~= Seq::<char>::empty());
    } else {
        let s = ds + tail;
        assert(s[0] == ds[0]);
        assert(s.skip(1) =~= ds.skip(1) + tail);
        assert(forall|k: int|
            0 <= k < ds.skip(1).len() ==> #[trigger] ds.skip(1)[k] == ds[k + 1]);
        lemma_digit_run_concat(ds.skip(1), tail);
        assert(seq![s[0]] + ds.skip(1) =~= ds);
    }
}

proof fn lemma_str_body_print(sc: Seq<char>, tail: Seq<char>)
    ensures
        sp_str_body(sp_escape_json(sc) + seq!['"'] + tail) == Some((sc, tail)),
    decreases sc.len(),
{
    if sc.len() == 0 {
        let s = sp_escape_json(sc) + seq!['"'] + tail;
        assert(s =~= seq!['"'] + tail);
        assert(s[0] == '"');
        assert(s.skip(1) =~= tail);
        assert(sp_str_body(s) == Some((Seq::<char>::empty(), tail)));
        assert(sc =~= Seq::<char>::empty());
    } else {
        let c = sc[0];
        let chunk = sp_escape_json_char(c);
        let rest = sp_escape_json(sc.skip(1));
        let inner = rest + seq!['"'] + tail;
        let s = sp_escape_json(sc) + seq!['"'] + tail;
        assert(s =~= chunk + inner);
        lemma_str_body_print(sc.skip(1), tail);
        if c == '"' || c == '\\' || c == '\n' || c == '\t' || c == '\r' {
            let x: char = if c == '"' {
                '"'
            } else if c == '\\' {
                '\\'
            } else if c == '\n' {
                'n'
            } else if c == '\t' {
                't'
            } else {
                'r'
            };
            assert(chunk == seq!['\\', x]);
            assert(s[0] == '\\');
            assert(s[1] == x);
            assert(s.len() >= 2);
            assert(sp_unescape(x) == Some(c));
            assert(s.skip(2) =~= inner);
            assert(sp_str_body(s) == Some((seq![c] + sc.skip(1), tail)));
            assert(seq![c] + sc.skip(1) =~= sc);
        } else {
            assert(chunk == seq![c]);
            assert(s[0] == c);
            assert(s.skip(1) =~= inner);
            assert(sp_str_body(s) == Some((seq![c] + sc.skip(1), tail)));
            assert(seq![c] + sc.skip(1) =~= sc);
        }
    }
}

proof fn lemma_num_print(n: NumSpec, tail: Seq<char>)
    requires
        wf_num(n),
        tail.len() == 0 || (!is_digit_char(tail[0]) && tail[0] != '.' && tail[0] != 'e' && tail[0] != 'E'),
    ensures
        sp_num(sp_print_num(n) + tail) == Some((n, tail)),
{
    lemma_u64_digits_props(n.int_part);
    let ip = text::spec_u64_digits(n.int_part);
    let s = sp_print_num(n) + tail;
    assert(!sp_has_exp(tail));
    if n.frac.len() == 0 {
        let body = ip + tail;
        if n.neg {
            assert(s =~= seq!['-'] + body);
            assert(s[0] == '-');
            assert(s.skip(1) =~= body);
        } else {
            assert(s =~= body);
            assert(s[0] == ip[0]);
            assert(is_digit_char(s[0]));
            assert(s[0] != '-') by {
                assert(('-' as u32) == 45);
            }
        }
        lemma_digit_run_concat(ip, tail);
        assert(sp_num(s) == Some(
            (NumSpec { neg: n.neg, int_part: sp_digits_val(ip), frac: Seq::empty() }, tail),
        ));
        assert(Seq::<u8>::empty() =~= n.frac);
        assert(NumSpec { neg: n.neg, int_part: sp_digits_val(ip), frac: Seq::empty() } == n);
    } else {
        let fc = sp_frac_chars(n.frac);
        assert(fc.len() == n.frac.len());
        assert(forall|k: int|
            0 <= k < fc.len() ==> #[trigger] fc[k] == text::spec_digit_char(n.frac[k] as nat));
        assert(forall|k: int| 0 <= k < fc.len() ==> is_digit_char(#[trigger] fc[k])) by {
            assert forall|k: int| 0 <= k < fc.len() implies is_digit_char(#[trigger] fc[k]) by {
                assert(n.frac[k] < 10);
                lemma_digit_char_props(n.frac[k] as nat);
            }
        }
        let ftail = seq!['.'] + fc + tail;
        let body = ip + ftail;
        if n.neg {
            assert(s =~= seq!['-'] + body);
            assert(s[0] == '-');
            assert(s.skip(1) =~= body);
        } else {
            assert(s =~= body);
            assert(body[0] == ip[0]);
            assert(is_digit_char(s[0]));
            assert(s[0] != '-') by {
                assert(('-' as u32) == 45);
            }
        }
        assert(ftail[0] == '.');
        assert(!is_digit_char('.')) by {
            assert(('.' as u32) == 46);
        }
        lemma_digit_run_concat(ip, ftail);
        let run = sp_digit_run(body);
        assert(run == (ip, ftail));
        assert(ftail.len() >= 2);
        assert(ftail[1] == fc[0]);
        assert(is_digit_char(ftail[1]));
        assert(ftail.skip(1) =~= fc + tail);
        lemma_digit_run_concat(fc, tail);
        assert(sp_digit_run(ftail.skip(1)) == (fc, tail));
        assert(sp_frac_vals(fc) =~= n.frac) by {
            assert forall|k: int| 0 <= k < fc.len() implies #[trigger] sp_frac_vals(fc)[k]
                == n.frac[k] by {
                assert(n.frac[k] < 10);
                lemma_digit_char_props(n.frac[k] as nat);
            }
        }
        assert(sp_num(s) == Some(
            (NumSpec { neg: n.neg, int_part: sp_digits_val(ip), frac: sp_frac_vals(fc) }, tail),
        ));
        assert(NumSpec { neg: n.neg, int_part: sp_digits_val(ip), frac: sp_frac_vals(fc) }
            == n);
    }
}

proof fn lemma_print_head(v: JsonSpec)
    requires
        wf_json(v),
    ensures
        sp_print(v).len() >= 1,
        is_print_start(sp_print(v)[0]),
    decreases v,
{
    match v {
        JsonSpec::Null => {
            reveal_strlit("null");
        },
        JsonSpec::Bool(b) => {
            reveal_strlit("true");
            reveal_strlit("false");
        },
        JsonSpec::Num(n) => {
            lemma_u64_digits_props(n.int_part);
            let ip = text::spec_u64_digits(n.int_part);
            if n.neg {
                assert(sp_print_num(n)[0] == '-');
            } else {
                assert(sp_print_num(n)[0] == ip[0]);
            }
        },
        JsonSpec::Str(sc) => {
            assert(sp_print(v)[0] == '"');
        },
        JsonSpec::Arr(items) => {
            assert(sp_print(v)[0] == '[');
        },
        JsonSpec::Obj(pairs) => {
            assert(sp_print(v)[0] == '{');
        },
    }
}

proof fn lemma_join_front(parts: Seq<Seq<char>>)
    requires
        parts.len() >= 2,
    ensures
        sp_join_comma(parts) == parts[0] + seq![','] + sp_join_comma(parts.skip(1)),
    decreases parts.len(),
{
    if parts.len() == 2 {
        assert(parts.drop_last() =~= seq![parts[0]]);
        assert(sp_join_comma(seq![parts[0]]) == parts[0]);
        assert(parts.skip(1) =~= seq![parts[1]]);
        assert(sp_join_comma(parts.skip(1)) == parts[1]);
    } else {
        lemma_join_front(parts.drop_last());
        assert(parts.drop_last()[0] == parts[0]);
        assert(parts.drop_last().skip(1) =~= parts.skip(1).drop_last());
        assert(sp_join_comma(parts) == sp_join_comma(parts.drop_last()) + seq![',']
            + parts.last());
        assert(parts.skip(1).len() >= 2);
        assert(sp_join_comma(parts.skip(1)) == sp_join_comma(parts.skip(1).drop_last())
            + seq![','] + parts.skip(1).last());
        assert(parts.skip(1).last() == parts.last());
        assert((parts[0] + seq![','] + sp_join_comma(parts.skip(1).drop_last())) + seq![',']
            + parts.last() =~= parts[0] + seq![','] + (sp_join_comma(
            parts.skip(1).drop_last(),
        ) + seq![','] + parts.last()));
    }
}

proof fn lemma_wf_list_shift(items: Seq<JsonSpec>, k: int)
    requires
        0 <= k,
        wf_json_list(items, k + 1),
        items.len() >= 1,
    ensures
        wf_json_list(items.skip(1), k),
    decreases items.len() - k,
{
    if k < items.len() - 1 {
        lemma_wf_list_shift(items, k + 1);
        assert(items.skip(1)[k] == items[k + 1]);
    }
}

proof fn lemma_wf_members_shift(pairs: Seq<(Seq<char>, JsonSpec)>, k: int)
    requires
        0 <= k,
        wf_json_members(pairs, k + 1),
        pairs.len() >= 1,
    ensures
        wf_json_members(pairs.skip(1), k),
    decreases pairs.len() - k,
{
    if k < pairs.len() - 1 {
        lemma_wf_members_shift(pairs, k + 1);
        assert(pairs.skip(1)[k] == pairs[k + 1]);
    }
}

} // verus!

verus! {

/// Core of the round-trip law: the canonical text of a well-formed value,
/// followed by any text that does not extend its final token, parses back to
/// exactly that value with the trailing text untouched.
#[verifier::rlimit(60)]
pub proof fn lemma_value_print(v: JsonSpec, tail: Seq<char>)
    requires
        wf_json(v),
        tail.len() == 0 || (!is_digit_char(tail[0]) && tail[0] != '.' && tail[0] != 'e' && tail[0] != 'E'),
    ensures
        sp_value(sp_print(v) + tail) == Some((v, tail)),
    decreases sp_print(v).len(), 0int,
{
    let s = sp_print(v) + tail;
    lemma_print_head(v);
    assert(s[0] == sp_print(v)[0]);
    lemma_ws_noop(s);
    match v {
        JsonSpec::Null => {
            reveal_strlit("null");
            assert(s.take(4) =~= "null"@);
            assert(s.skip(4) =~= tail);
            assert(sp_expect(s, "null"@) == Some(tail));
        },
        JsonSpec::Bool(b) => {
            if b {
                reveal_strlit("true");
                reveal_strlit("null");
                reveal_strlit("false");
                assert(s.take(4) =~= "true"@);
                assert(s.skip(4) =~= tail);
                assert(sp_expect(s, "true"@) == Some(tail));
            } else {
                reveal_strlit("false");
                reveal_strlit("null");
                reveal_strlit("true");
                assert(s.take(5) =~= "false"@);
                assert(s.skip(5) =~= tail);
                assert(sp_expect(s, "false"@) == Some(tail));
            }
        },
        JsonSpec::Num(n) => {
            lemma_num_print(n, tail);
        },
        JsonSpec::Str(sc) => {
            assert(s[0] == '"');
            assert(s.skip(1) =~= sp_escape_json(sc) + seq!['"'] + tail);
            lemma_str_body_print(sc, tail);
        },
        JsonSpec::Arr(items) => {
            assert(s[0] == '[');
            let join = sp_join_comma(sp_item_prints(items));
            let inner = join + seq![']'] + tail;
            assert(s.skip(1) =~= inner);
            if items.len() == 0 {
                assert(sp_item_prints(items) =~= Seq::<Seq<char>>::empty());
                assert(join =~= Seq::<char>::empty());
                assert(inner =~= seq![']'] + tail);
                assert(inner[0] == ']');
                lemma_ws_noop(inner);
                assert(inner.skip(1) =~= tail);
                assert(sp_value(s) == Some((JsonSpec::Arr(Seq::empty()), tail)));
                assert(items =~= Seq::<JsonSpec>::empty());
            } else {
                lemma_wf_list_elem(items, 0, 0);
                lemma_print_head(items[0]);
                if items.len() == 1 {
                    assert(sp_item_prints(items) =~= seq![sp_print(items[0])]);
                    assert(join == sp_print(items[0]));
                } else {
                    lemma_join_front(sp_item_prints(items));
                    assert(sp_item_prints(items)[0] == sp_print(items[0]));
                    assert(join[0] == sp_print(items[0])[0]);
                }
                assert(inner[0] == sp_print(items[0])[0]);
                assert(!is_json_ws(inner[0]));
                lemma_ws_noop(inner);
                assert(inner[0] != ']') by {
                    assert((']' as u32) == 93);
                }
                lemma_arr_rest_print(items, tail);
                assert(sp_value(s) == Some((JsonSpec::Arr(items), tail)));
            }
        },
        JsonSpec::Obj(pairs) => {
            assert(s[0] == '{');
            let join = sp_join_comma(sp_member_prints(pairs));
            let inner = join + seq!['}'] + tail;
            assert(s.skip(1) =~= inner);
            if pairs.len() == 0 {
                assert(sp_member_prints(pairs) =~= Seq::<Seq<char>>::empty());
                assert(join =~= Seq::<char>::empty());
                assert(inner =~= seq!['}'] + tail);
                assert(inner[0] == '}');
                lemma_ws_noop(inner);
                assert(inner.skip(1) =~= tail);
                assert(sp_value(s) == Some((JsonSpec::Obj(Seq::empty()), tail)));
                assert(pairs =~= Seq::<(Seq<char>, JsonSpec)>::empty());
            } else {
                let m0 = sp_member_prints(pairs)[0];
                assert(m0 == seq!['"'] + sp_escape_json(pairs[0].0) + seq!['"', ':']
                    + sp_print(pairs[0].1));
                if pairs.len() == 1 {
                    assert(sp_member_prints(pairs) =~= seq![m0]);
                    assert(join == m0);
                } else {
                    lemma_join_front(sp_member_prints(pairs));
                    assert(join[0] == m0[0]);
                }
                assert(m0[0] == '"');
                assert(inner[0] == '"');
                assert(!is_json_ws(inner[0]));
                lemma_ws_noop(inner);
                assert(inner[0] != '}') by {
                    assert(('}' as u32) == 125);
                }
                lemma_obj_rest_print(pairs, tail);
                assert(sp_value(s) == Some((JsonSpec::Obj(pairs), tail)));
            }
        },
    }
}

#[verifier::rlimit(60)]
proof fn lemma_arr_rest_print(items: Seq<JsonSpec>, tail: Seq<char>)
    requires
        items.len() >= 1,
        wf_json_list(items, 0),
    ensures
        sp_arr_rest(sp_join_comma(sp_item_prints(items)) + seq![']'] + tail) == Some(
            (items, tail),
        ),
    decreases sp_join_comma(sp_item_prints(items)).len(), 1int,
{
    let join = sp_join_comma(sp_item_prints(items));
    let s = join + seq![']'] + tail;
    lemma_wf_list_elem(items, 0, 0);
    lemma_print_head(items[0]);
    if items.len() == 1 {
        assert(sp_item_prints(items) =~= seq![sp_print(items[0])]);
        assert(join == sp_print(items[0]));
        let t0 = seq![']'] + tail;
        assert(s =~= sp_print(items[0]) + t0);
        assert(t0[0] == ']');
        assert(!is_digit_char(']') && ']' != '.' && ']' != 'e' && ']' != 'E') by {
            assert((']' as u32) == 93);
        }
        lemma_value_print(items[0], t0);
        assert(sp_value(s) == Some((items[0], t0)));
        lemma_ws_noop(t0);
        assert(t0.skip(1) =~= tail);
        assert(sp_arr_rest(s) == Some((seq![items[0]], tail)));
        assert(seq![items[0]] =~= items);
    } else {
        lemma_join_front(sp_item_prints(items));
        assert(sp_item_prints(items)[0] == sp_print(items[0]));
        assert(sp_item_prints(items).skip(1) =~= sp_item_prints(items.skip(1))) by {
            assert forall|k: int|
                0 <= k < sp_item_prints(items).skip(1).len() implies #[trigger] sp_item_prints(
                items,
            ).skip(1)[k] == sp_item_prints(items.skip(1))[k] by {
                assert(sp_item_prints(items).skip(1)[k] == sp_item_prints(items)[k + 1]);
                assert(items.skip(1)[k] == items[k + 1]);
            }
        }
        let join2 = sp_join_comma(sp_item_prints(items.skip(1)));
        assert(join == sp_print(items[0]) + seq![','] + join2);
        let t0 = seq![','] + join2 + seq![']'] + tail;
        assert(s =~= sp_print(items[0]) + t0);
        assert(t0[0] == ',');
        assert(!is_digit_char(',') && ',' != '.' && ',' != 'e' && ',' != 'E') by {
            assert((',' as u32) == 44);
        }
        lemma_value_print(items[0], t0);
        assert(sp_value(s) == Some((items[0], t0)));
        lemma_ws_noop(t0);
        let r2 = join2 + seq![']'] + tail;
        assert(t0.skip(1) =~= r2);
        assert(r2.len() < s.len());
        lemma_wf_list_shift(items, 0);
        lemma_arr_rest_print(items.skip(1), tail);
        assert(sp_arr_rest(r2) == Some((items.skip(1), tail)));
        assert(sp_arr_rest(s) == Some((seq![items[0]] + items.skip(1), tail)));
        assert(seq![items[0]] + items.skip(1) =~= items);
    }
}

#[verifier::rlimit(60)]
proof fn lemma_obj_rest_print(pairs: Seq<(Seq<char>, JsonSpec)>, tail: Seq<char>)
    requires
        pairs.len() >= 1,
        wf_json_members(pairs, 0),
    ensures
        sp_obj_rest(sp_join_comma(sp_member_prints(pairs)) + seq!['}'] + tail) == Some(
            (pairs, tail),
        ),
    decreases sp_join_comma(sp_member_prints(pairs)).len(), 1int,
{
    let join = sp_join_comma(sp_member_prints(pairs));
    let s = join + seq!['}'] + tail;
    lemma_wf_members_elem(pairs, 0, 0);
    let k0 = pairs[0].0;
    let v0 = pairs[0].1;
    let m0 = sp_member_prints(pairs)[0];
    assert(m0 == seq!['"'] + sp_escape_json(k0) + seq!['"', ':'] + sp_print(v0));
    if pairs.len() == 1 {
        assert(sp_member_prints(pairs) =~= seq![m0]);
        assert(join == m0);
        let vt = seq!['}'] + tail;
        assert(s =~= m0 + vt);
        assert(s[0] == '"');
        lemma_ws_noop(s);
        let kt = seq!['"', ':'] + sp_print(v0) + vt;
        assert(s.skip(1) =~= sp_escape_json(k0) + seq!['"'] + (seq![':'] + sp_print(v0) + vt));
        lemma_str_body_print(k0, seq![':'] + sp_print(v0) + vt);
        let r1 = seq![':'] + sp_print(v0) + vt;
        assert(sp_str_body(s.skip(1)) == Some((k0, r1)));
        assert(r1[0] == ':');
        lemma_ws_noop(r1);
        assert(r1.skip(1) =~= sp_print(v0) + vt);
        assert(vt[0] == '}');
        assert(!is_digit_char('}') && '}' != '.' && '}' != 'e' && '}' != 'E') by {
            assert(('}' as u32) == 125);
        }
        lemma_value_print(v0, vt);
        assert(sp_value(r1.skip(1)) == Some((v0, vt)));
        lemma_ws_noop(vt);
        assert(vt.skip(1) =~= tail);
        assert(sp_obj_rest(s) == Some((seq![(k0, v0)], tail)));
        assert((k0, v0) == pairs[0]);
        assert(seq![pairs[0]] =~= pairs);
    } else {
        lemma_join_front(sp_member_prints(pairs));
        assert(sp_member_prints(pairs).skip(1) =~= sp_member_prints(pairs.skip(1))) by {
            assert forall|k: int|
                0 <= k < sp_member_prints(pairs).skip(1).len() implies #[trigger] sp_member_prints(
                pairs,
            ).skip(1)[k] == sp_member_prints(pairs.skip(1))[k] by {
                assert(sp_member_prints(pairs).skip(1)[k] == sp_member_prints(pairs)[k + 1]);
                assert(pairs.skip(1)[k] == pairs[k + 1]);
            }
        }
        let join2 = sp_join_comma(sp_member_prints(pairs.skip(1)));
        assert(join == m0 + seq![','] + join2);
        let vt = seq![','] + join2 + seq!['}'] + tail;
        assert(s =~= m0 + vt);
        assert(s[0] == '"');
        lemma_ws_noop(s);
        let r1 = seq![':'] + sp_print(v0) + vt;
        assert(s.skip(1) =~= sp_escape_json(k0) + seq!['"'] + (seq![':'] + sp_print(v0) + vt));
        lemma_str_body_print(k0, seq![':'] + sp_print(v0) + vt);
        assert(sp_str_body(s.skip(1)) == Some((k0, r1)));
        assert(r1[0] == ':');
        lemma_ws_noop(r1);
        assert(r1.skip(1) =~= sp_print(v0) + vt);
        assert(vt[0] == ',');
        assert(!is_digit_char(',') && ',' != '.' && ',' != 'e' && ',' != 'E') by {
            assert((',' as u32) == 44);
        }
        lemma_value_print(v0, vt);
        assert(sp_value(r1.skip(1)) == Some((v0, vt)));
        lemma_ws_noop(vt);
        let r4 = join2 + seq!['}'] + tail;
        assert(vt.skip(1) =~= r4);
        assert(r4.len() < s.len());
        lemma_wf_members_shift(pairs, 0);
        lemma_obj_rest_print(pairs.skip(1), tail);
        assert(sp_obj_rest(r4) == Some((pairs.skip(1), tail)));
        assert(sp_obj_rest(s) == Some((seq![(k0, v0)] + pairs.skip(1), tail)));
        assert((k0, v0) == pairs[0]);
        assert(seq![pairs[0]] + pairs.skip(1) =~= pairs);
    }
}

/// The round-trip law: parsing the canonical text of any well-formed value
/// yields exactly that value.
pub proof fn lemma_round_trip(v: JsonSpec)
    requires
        wf_json(v),
    ensures
        sp_json(sp_print(v)) == Some(v),
{
    lemma_value_print(v, Seq::empty());
    assert(sp_print(v) + Seq::<char>::empty() =~= sp_print(v));
    assert(sp_value(sp_print(v)) == Some((v, Seq::<char>::empty())));
}

} // verus!

verus! {

// ---------------------------------------------------------------------------
// typed member lookups, the decoders' building blocks
// ---------------------------------------------------------------------------

/// A string-valued member.
pub open spec fn sp_get_str(m: JsonSpec, key: Seq<char>) -> Option<Seq<char>> {
    match sp_get(m, key) {
        Some(JsonSpec::Str(t)) => Some(t),
        _ => None,
    }
}

/// A numeric member.
pub open spec fn sp_get_num(m: JsonSpec, key: Seq<char>) -> Option<NumSpec> {
    match sp_get(m, key) {
        Some(JsonSpec::Num(n)) => Some(n),
        _ => None,
    }
}

/// A member holding an unsigned whole number.
pub open spec fn sp_get_u64(m: JsonSpec, key: Seq<char>) -> Option<nat> {
    match sp_get(m, key) {
        Some(JsonSpec::Num(n)) => if !n.neg && n.frac.len() == 0 {
            Some(n.int_part)
        } else {
            None
        },
        _ => None,
    }
}

/// An array-valued member.
pub open spec fn sp_get_items(m: JsonSpec, key: Seq<char>) -> Option<Seq<JsonSpec>> {
    match sp_get(m, key) {
        Some(JsonSpec::Arr(items)) => Some(items),
        _ => None,
    }
}

impl JsonValue {
    /// A string member, copied out.
    pub fn get_str_field(&self, key: &str) -> (r: Option<String>)
        ensures
            match r {
                Some(t) => sp_get_str(model_of(*self), key@) == Some(t@),
                None => sp_get_str(model_of(*self), key@) is None,
            },
    {
        match self.get_field(key) {
            None => None,
            Some(f) => f.as_text(),
        }
    }

    /// A numeric member, copied out.
    pub fn get_num_field(&self, key: &str) -> (r: Option<Decimal>)
        ensures
            match r {
                Some(d) => sp_get_num(model_of(*self), key@) == Some(d.model()),
                None => sp_get_num(model_of(*self), key@) is None,
            },
    {
        match self.get_field(key) {
            None => None,
            Some(f) => f.as_decimal(),
        }
    }

    /// A member holding an unsigned whole number.
    pub fn get_u64_field(&self, key: &str) -> (r: Option<u64>)
        ensures
            match r {
                Some(x) => sp_get_u64(model_of(*self), key@) == Some(x as nat),
                None => sp_get_u64(model_of(*self), key@) is None,
            },
    {
        match self.get_field(key) {
            None => None,
            Some(f) => f.as_u64(),
        }
    }

    /// An array member, borrowed.
    pub fn get_items_field<'a>(&'a self, key: &str) -> (r: Option<&'a Vec<JsonValue>>)
        ensures
            match r {
                Some(items) => sp_get_items(model_of(*self), key@) == Some(models_of(items@)),
                None => sp_get_items(model_of(*self), key@) is None,
            },
    {
        match self.get_field(key) {
            None => None,
            Some(f) => f.as_items(),
        }
    }
}

} // verus!

verus! {

proof fn lemma_wf_obj_get(pairs: Seq<(Seq<char>, JsonSpec)>, key: Seq<char>)
    requires
        wf_json_members(pairs, 0),
    ensures
        sp_obj_get(pairs, key) is Some ==> wf_json(sp_obj_get(pairs, key).unwrap()),
    decreases pairs.len(),
{
    if pairs.len() > 0 {
        if pairs[0].0 == key {
        } else {
            lemma_wf_members_shift(pairs, 0);
            lemma_wf_obj_get(pairs.skip(1), key);
        }
    }
}

/// A list whose items are each well formed is well formed as a list.
pub proof fn lemma_wf_list_from_all(items: Seq<JsonSpec>, k: int)
    requires
        0 <= k <= items.len(),
        forall|j: int| 0 <= j < items.len() ==> wf_json(#[trigger] items[j]),
    ensures
        wf_json_list(items, k),
    decreases items.len() - k,
{
    if k < items.len() {
        lemma_wf_list_from_all(items, k + 1);
    }
}

/// A member of a well-formed object is itself well formed.
pub proof fn lemma_wf_get(m: JsonSpec, key: Seq<char>)
    requires
        wf_json(m),
    ensures
        sp_get(m, key) is Some ==> wf_json(sp_get(m, key).unwrap()),
{
    match m {
        JsonSpec::Obj(pairs) => {
            lemma_wf_obj_get(pairs, key);
        },
        _ => {},
    }
}

} // verus!

verus! {

/// An optional string member: `Some(None)` when absent or null,
/// `Some(Some(t))` when a string, `None` when present with a wrong type.
pub open spec fn sp_get_opt_str(m: JsonSpec, key: Seq<char>) -> Option<Option<Seq<char>>> {
    match sp_get(m, key) {
        None => Some(None),
        Some(JsonSpec::Null) => Some(None),
        Some(JsonSpec::Str(t)) => Some(Some(t)),
        Some(_) => None,
    }
}

/// An optional numeric member, with the same absent/null reading.
pub open spec fn sp_get_opt_num(m: JsonSpec, key: Seq<char>) -> Option<Option<NumSpec>> {
    match sp_get(m, key) {
        None => Some(None),
        Some(JsonSpec::Null) => Some(None),
        Some(JsonSpec::Num(n)) => Some(Some(n)),
        Some(_) => None,
    }
}

impl JsonValue {
    /// An optional string member; `None` only on a type mismatch.
    pub fn get_opt_str_field(&self, key: &str) -> (r: Option<Option<String>>)
        ensures
            match r {
                Some(None) => sp_get_opt_str(model_of(*self), key@) == Some(
                    None::<Seq<char>>,
                ),
                Some(Some(t)) => sp_get_opt_str(model_of(*self), key@) == Some(Some(t@)),
                None => sp_get_opt_str(model_of(*self), key@) is None,
            },
    {
        match self.get_field(key) {
            None => Some(None),
            Some(f) => match f {
                JsonValue::Null => Some(None),
                JsonValue::Str(t) => Some(Some(t.clone())),
                _ => None,
            },
        }
    }

    /// An optional numeric member; `None` only on a type mismatch.
    pub fn get_opt_num_field(&self, key: &str) -> (r: Option<Option<Decimal>>)
        ensures
            match r {
                Some(None) => sp_get_opt_num(model_of(*self), key@) == Some(None::<NumSpec>),
                Some(Some(d)) => sp_get_opt_num(model_of(*self), key@) == Some(
                    Some(d.model()),
                ),
                None => sp_get_opt_num(model_of(*self), key@) is None,
            },
    {
        match self.get_field(key) {
            None => Some(None),
            Some(f) => match f {
                JsonValue::Null => Some(None),
                JsonValue::Num(d) => Some(Some(d.duplicate())),
                _ => None,
            },
        }
    }
}

} // verus!
