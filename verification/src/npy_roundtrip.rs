//! A header written by `npy_header` reads back, through `parse_header`, as
//! the dtype and shape it was written for.

use vstd::prelude::*;

use crate::data::le_value;
use crate::hash::{hex_char, le_bytes_u64};
use crate::npy::{
    all_digits, c_order_spec, i64_at, i64_payload, lemma_le_value_8, descr_spec, digits_value, dims_from_parts, dims_spec,
    header_dict, header_dims_spec, header_dtype_spec, header_padding, header_span_spec, header_text,
    joined_dims, npy_magic, npy_v1_preamble,
    parse_usize_spec, quoted_field_spec, shape_body_spec, shape_tuple_spec, split_commas,
};
use crate::storage::DType;
use crate::text::{
    decimal, find_spec, is_first_match, is_white_space, lemma_decimal_digits, lemma_find_spec,
    lemma_first_match_unique, lemma_trim_start_skip, matches_at, trim, trim_end, trim_start,
};

verus! {

// ---------------------------------------------------------------------------
// Finding patterns
// ---------------------------------------------------------------------------

/// A match with no earlier match is what `find_spec` finds.
proof fn lemma_find_first(s: Seq<char>, pat: Seq<char>, i: int)
    requires
        matches_at(s, pat, i),
        forall|j: int| 0 <= j < i ==> !matches_at(s, pat, j),
    ensures
        find_spec(s, pat) == Some(i),
{
    assert(is_first_match(s, pat, i));
    lemma_find_spec(s, pat);
    let c = find_spec(s, pat)->0;
    lemma_first_match_unique(s, pat, i, c);
}

/// A one-character pattern matches exactly where that character stands.
proof fn lemma_char_match(s: Seq<char>, c: char, j: int)
    ensures
        matches_at(s, seq![c], j) <==> 0 <= j < s.len() && s[j] == c,
{
    if 0 <= j < s.len() {
        assert(s.subrange(j, j + 1) =~= seq![s[j]]);
        if s.subrange(j, j + 1) == seq![c] {
            assert(s.subrange(j, j + 1)[0] == c);
        }
    }
}

/// The first occurrence of character `c`.
proof fn lemma_find_char(s: Seq<char>, c: char, i: int)
    requires
        0 <= i < s.len(),
        s[i] == c,
        forall|j: int| 0 <= j < i ==> s[j] != c,
    ensures
        find_spec(s, seq![c]) == Some(i),
{
    lemma_char_match(s, c, i);
    assert forall|j: int| 0 <= j < i implies !matches_at(s, seq![c], j) by {
        lemma_char_match(s, c, j);
    }
    lemma_find_first(s, seq![c], i);
}

// ---------------------------------------------------------------------------
// The fixed parts of a header
// ---------------------------------------------------------------------------

pub open spec fn header_head() -> Seq<char> {
    "{'descr': '"@
}

pub open spec fn header_middle() -> Seq<char> {
    "', 'fortran_order': False, 'shape': "@
}

pub open spec fn header_tail() -> Seq<char> {
    ", }"@
}

/// Descriptors are three characters, none of them a quote, an `h` or a
/// parenthesis.
proof fn lemma_descr_chars(dtype: DType)
    ensures
        descr_spec(dtype).len() == 3,
        forall|k: int|
            0 <= k < 3 ==> #[trigger] descr_spec(dtype)[k] != '\'' && descr_spec(dtype)[k] != 'h'
                && descr_spec(dtype)[k] != '(',
{
    reveal_strlit("<f4");
    reveal_strlit("|V2");
    reveal_strlit("<f8");
    reveal_strlit("<i8");
    reveal_strlit("|b1");
}

/// Where the parts of a header stand: the head at 0, the descriptor at 11,
/// the middle at 14 and the shape tuple at 50.
proof fn lemma_header_layout(dtype: DType, shape: Seq<usize>)
    ensures
        ({
            let h = header_text(dtype, shape);
            let t = shape_tuple_spec(shape);
            &&& h.len() == 53 + t.len() + header_padding(header_dict(dtype, shape).len()) + 1
            &&& forall|k: int| 0 <= k < 11 ==> #[trigger] h[k] == header_head()[k]
            &&& forall|k: int| 0 <= k < 3 ==> #[trigger] h[11 + k] == descr_spec(dtype)[k]
            &&& forall|k: int| 0 <= k < 36 ==> #[trigger] h[14 + k] == header_middle()[k]
            &&& forall|k: int| 0 <= k < t.len() ==> #[trigger] h[50 + k] == t[k]
        }),
{
    reveal_strlit("{'descr': '");
    reveal_strlit("', 'fortran_order': False, 'shape': ");
    reveal_strlit(", }");
    lemma_descr_chars(dtype);
    let h = header_text(dtype, shape);
    let dict = header_dict(dtype, shape);
    let t = shape_tuple_spec(shape);
    let a = header_head() + descr_spec(dtype);
    let b = a + header_middle();
    let c = b + t;
    assert(dict == c + header_tail());
    assert forall|k: int| 0 <= k < 11 implies #[trigger] h[k] == header_head()[k] by {
        assert(h[k] == dict[k]);
        assert(dict[k] == c[k]);
        assert(c[k] == b[k]);
        assert(b[k] == a[k]);
    }
    assert forall|k: int| 0 <= k < 3 implies #[trigger] h[11 + k] == descr_spec(dtype)[k] by {
        assert(h[11 + k] == dict[11 + k]);
        assert(dict[11 + k] == c[11 + k]);
        assert(c[11 + k] == b[11 + k]);
        assert(b[11 + k] == a[11 + k]);
    }
    assert forall|k: int| 0 <= k < 36 implies #[trigger] h[14 + k] == header_middle()[k] by {
        assert(h[14 + k] == dict[14 + k]);
        assert(dict[14 + k] == c[14 + k]);
        assert(c[14 + k] == b[14 + k]);
    }
    assert forall|k: int| 0 <= k < t.len() implies #[trigger] h[50 + k] == t[k] by {
        assert(h[50 + k] == dict[50 + k]);
        assert(dict[50 + k] == c[50 + k]);
    }
}

// ---------------------------------------------------------------------------
// The descriptor and the order flag
// ---------------------------------------------------------------------------

/// The `descr` entry of a written header is the dtype's descriptor.
#[verifier::spinoff_prover]
#[verifier::rlimit(40)]
proof fn lemma_written_descr(dtype: DType, shape: Seq<usize>)
    ensures
        quoted_field_spec(header_text(dtype, shape), "descr"@) == Some(descr_spec(dtype)),
{
    reveal_strlit("descr");
    reveal_strlit("{'descr': '");
    reveal_strlit("', 'fortran_order': False, 'shape': ");
    lemma_header_layout(dtype, shape);
    lemma_descr_chars(dtype);
    let h = header_text(dtype, shape);
    let field = "descr"@;
    // The field is found at 2.
    assert(h.subrange(2, 7) =~= field) by {
        assert forall|k: int| 0 <= k < 5 implies h.subrange(2, 7)[k] == field[k] by {
            assert(h[2 + k] == header_head()[2 + k]);
        }
    }
    assert forall|j: int| 0 <= j < 2 implies !matches_at(h, field, j) by {
        assert(h[j] == header_head()[j]);
        if matches_at(h, field, j) {
            assert(h.subrange(j, j + 5)[0] == h[j]);
        }
    }
    lemma_find_first(h, field, 2);
    // The colon right after it.
    let after_field = h.subrange(7, h.len() as int);
    assert(after_field[0] == h[7]);
    assert(after_field[1] == h[8]);
    lemma_find_char(after_field, ':', 1);
    // One space, then the opening quote.
    let u = after_field.subrange(2, after_field.len() as int);
    assert(u =~= h.subrange(9, h.len() as int));
    assert(u[0] == h[9]);
    assert(is_white_space(u[0]));
    lemma_trim_start_skip(u, 1);
    let after_colon = u.skip(1);
    assert(after_colon =~= h.subrange(10, h.len() as int));
    assert(after_colon[0] == h[10]);
    assert(!is_white_space(after_colon[0]));
    assert(trim_start(after_colon) == after_colon);
    // The value runs to the next quote.
    let rest = after_colon.drop_first();
    assert(rest =~= h.subrange(11, h.len() as int));
    assert forall|j: int| 0 <= j < 3 implies rest[j] != '\'' by {
        assert(rest[j] == h[11 + j]);
    }
    assert(rest[3] == h[14]);
    lemma_find_char(rest, '\'', 3);
    assert(rest.take(3) =~= descr_spec(dtype)) by {
        assert forall|k: int| 0 <= k < 3 implies rest.take(3)[k] == descr_spec(dtype)[k] by {
            assert(rest[k] == h[11 + k]);
        }
    }
}

/// A written header names its dtype, for every dtype the writer accepts.
pub proof fn lemma_written_dtype(dtype: DType, shape: Seq<usize>)
    requires
        !(dtype is BFloat16),
    ensures
        header_dtype_spec(header_text(dtype, shape)) == Some(dtype),
{
    lemma_written_descr(dtype, shape);
    reveal_strlit("<f4");
    reveal_strlit("<f8");
    reveal_strlit("<i8");
    reveal_strlit("|b1");
    reveal_strlit("|f4");
    reveal_strlit("|f8");
    reveal_strlit("?");
    let d = descr_spec(dtype);
    match dtype {
        DType::F32 => {},
        DType::F64 => {
            assert(d[2] != "<f4"@[2]);
            assert(d[0] != "|f4"@[0]);
        },
        DType::I64 => {
            assert(d[1] != "<f4"@[1]);
            assert(d[0] != "|f4"@[0]);
            assert(d[1] != "<f8"@[1]);
            assert(d[0] != "|f8"@[0]);
        },
        DType::Bool => {
            assert(d[0] != "<f4"@[0]);
            assert(d[1] != "|f4"@[1]);
            assert(d[0] != "<f8"@[0]);
            assert(d[1] != "|f8"@[1]);
            assert(d[0] != "<i8"@[0]);
        },
        DType::BFloat16 => {},
    }
}

/// A written header declares C order.
pub proof fn lemma_written_c_order(dtype: DType, shape: Seq<usize>)
    ensures
        c_order_spec(header_text(dtype, shape)),
{
    reveal_strlit("'fortran_order': False");
    reveal_strlit("', 'fortran_order': False, 'shape': ");
    lemma_header_layout(dtype, shape);
    let h = header_text(dtype, shape);
    let pat = "'fortran_order': False"@;
    assert(h.subrange(17, 17 + pat.len() as int) =~= pat) by {
        assert forall|k: int| 0 <= k < pat.len() implies h.subrange(17, 17 + pat.len() as int)[k] == pat[k] by {
            assert(h[14 + (3 + k)] == header_middle()[3 + k]);
        }
    }
    assert(matches_at(h, pat, 17));
    lemma_find_spec(h, pat);
}

// ---------------------------------------------------------------------------
// Numbers
// ---------------------------------------------------------------------------

pub(crate) proof fn lemma_digits_value_decimal(n: nat)
    ensures
        digits_value(decimal(n)) == n,
        decimal(n).len() > 0,
    decreases n,
{
    if n < 10 {
        let d = decimal(n);
        assert(d.drop_last() =~= Seq::<char>::empty());
        assert(d.last() == hex_char(n as u64));
        assert(hex_char(n as u64) as int == n + 48);
        assert(digits_value(d) == digits_value(d.drop_last()) * 10 + ((d.last() as int) - ('0' as int)) as nat);
    } else {
        lemma_digits_value_decimal(n / 10);
        let d = decimal(n);
        assert(d.drop_last() =~= decimal(n / 10));
        assert(d.last() == hex_char((n % 10) as u64));
        assert(hex_char((n % 10) as u64) as int == n % 10 + 48);
        assert(digits_value(d) == digits_value(d.drop_last()) * 10 + ((d.last() as int) - ('0' as int)) as nat);
        assert(digits_value(d) == (n / 10) * 10 + n % 10);
    }
}

/// `usize::from_str` reads back what `decimal` writes.
proof fn lemma_parse_decimal(n: usize)
    ensures
        parse_usize_spec(decimal(n as nat)) == Some(n),
{
    lemma_digits_value_decimal(n as nat);
    lemma_decimal_digits(n as nat);
    let d = decimal(n as nat);
    assert(d[0] != '+');
    assert(all_digits(d));
}

/// A sequence that starts and ends with non-white characters is its own trim.
proof fn lemma_trim_fixed(s: Seq<char>)
    requires
        s.len() > 0,
        !is_white_space(s[0]),
        !is_white_space(s.last()),
    ensures
        trim(s) == s,
{
    assert(trim_start(s) == s);
    assert(trim_end(s) == s);
}

proof fn lemma_trim_decimal(n: nat)
    ensures
        trim(decimal(n)) == decimal(n),
        trim(" "@ + decimal(n)) == decimal(n),
{
    reveal_strlit(" ");
    lemma_digits_value_decimal(n);
    lemma_decimal_digits(n);
    let d = decimal(n);
    assert(d[0] == d[0]);
    assert(d.last() == d[d.len() - 1]);
    lemma_trim_fixed(d);
    let sd = " "@ + d;
    assert(sd[0] == ' ');
    lemma_trim_start_skip(sd, 1);
    assert(sd.skip(1) =~= d);
    assert(trim_start(d) == d);
    assert(trim_end(d) == d);
}

// ---------------------------------------------------------------------------
// Comma splitting
// ---------------------------------------------------------------------------

pub open spec fn no_comma(s: Seq<char>) -> bool {
    forall|k: int| 0 <= k < s.len() ==> #[trigger] s[k] != ','
}

proof fn lemma_split_no_comma(s: Seq<char>)
    requires
        no_comma(s),
    ensures
        split_commas(s) == seq![s],
{
    lemma_find_spec(s, seq![',']);
    if find_spec(s, seq![',']) is Some {
        let i = find_spec(s, seq![','])->0;
        lemma_char_match(s, ',', i);
    }
}

#[verifier::spinoff_prover]
#[verifier::rlimit(60)]
proof fn lemma_split_at_comma(a: Seq<char>, b: Seq<char>)
    requires
        no_comma(a),
    ensures
        split_commas(a + seq![','] + b) == seq![a] + split_commas(b),
{
    let ac = a + seq![','];
    let s = ac + b;
    assert(ac[a.len() as int] == ',');
    assert(s[a.len() as int] == ac[a.len() as int]);
    assert forall|j: int| 0 <= j < a.len() implies s[j] != ',' by {
        assert(s[j] == a[j]);
    }
    lemma_find_char(s, ',', a.len() as int);
    assert(s.take(a.len() as int) =~= a);
    assert(s.skip(a.len() + 1int) =~= b);
}

proof fn lemma_decimal_no_comma(n: nat)
    ensures
        no_comma(decimal(n)),
        no_comma(" "@ + decimal(n)),
{
    reveal_strlit(" ");
    lemma_decimal_digits(n);
    let sd = " "@ + decimal(n);
    assert forall|k: int| 0 <= k < sd.len() implies #[trigger] sd[k] != ',' by {
        if k > 0 {
            assert(sd[k] == decimal(n)[k - 1]);
        }
    }
}

/// `joined_dims` read from the front: the first dimension, `, `, the rest.
proof fn lemma_joined_front(shape: Seq<usize>)
    requires
        shape.len() >= 2,
    ensures
        joined_dims(shape) == decimal(shape[0] as nat) + ", "@ + joined_dims(shape.drop_first()),
    decreases shape.len(),
{
    let rest = shape.drop_first();
    if shape.len() == 2 {
        assert(shape.drop_last() =~= seq![shape[0]]);
        assert(rest =~= seq![shape[1]]);
        assert(joined_dims(shape.drop_last()) == decimal(shape[0] as nat));
        assert(joined_dims(rest) == decimal(shape[1] as nat));
        assert(joined_dims(shape) == joined_dims(shape.drop_last()) + ", "@ + decimal(shape.last() as nat));
    } else {
        lemma_joined_front(shape.drop_last());
        assert(shape.drop_last().drop_first() =~= rest.drop_last());
        assert(shape.drop_last()[0] == shape[0]);
        assert(rest.last() == shape.last());
        assert(joined_dims(shape) =~= decimal(shape[0] as nat) + ", "@ + joined_dims(rest));
    }
}

/// The pieces of a joined shape, after an optional leading space `lead`:
/// the first dimension (with `lead`), then each later one after a space.
proof fn lemma_split_joined(lead: Seq<char>, shape: Seq<usize>)
    requires
        lead == Seq::<char>::empty() || lead == " "@,
        shape.len() >= 1,
    ensures
        split_commas(lead + joined_dims(shape)) == seq![lead + decimal(shape[0] as nat)] + Seq::new(
            (shape.len() - 1) as nat,
            |i: int| " "@ + decimal(shape[i + 1] as nat),
        ),
    decreases shape.len(),
{
    reveal_strlit(" ");
    reveal_strlit(", ");
    let first = lead + decimal(shape[0] as nat);
    lemma_decimal_no_comma(shape[0] as nat);
    assert(no_comma(first)) by {
        if lead.len() == 0 {
            assert(first =~= decimal(shape[0] as nat));
        }
    }
    if shape.len() == 1 {
        assert(joined_dims(shape) == decimal(shape[0] as nat));
        lemma_split_no_comma(first);
        assert(Seq::new(0, |i: int| " "@ + decimal(shape[i + 1] as nat)) =~= Seq::<Seq<char>>::empty());
        assert(seq![first] + Seq::<Seq<char>>::empty() =~= seq![first]);
    } else {
        let rest = shape.drop_first();
        lemma_joined_front(shape);
        assert(lead + joined_dims(shape) =~= first + seq![','] + (" "@ + joined_dims(rest)));
        lemma_split_at_comma(first, " "@ + joined_dims(rest));
        lemma_split_joined(" "@, rest);
        assert(seq![" "@ + decimal(rest[0] as nat)] + Seq::new(
            (rest.len() - 1) as nat,
            |i: int| " "@ + decimal(rest[i + 1] as nat),
        ) =~= Seq::new((shape.len() - 1) as nat, |i: int| " "@ + decimal(shape[i + 1] as nat)));
        assert(seq![first] + (seq![" "@ + decimal(rest[0] as nat)] + Seq::new(
            (rest.len() - 1) as nat,
            |i: int| " "@ + decimal(rest[i + 1] as nat),
        )) =~= seq![first] + Seq::new((shape.len() - 1) as nat, |i: int| " "@ + decimal(shape[i + 1] as nat)));
    }
}

/// Pieces that trim to the decimal forms of `vals` read back as `vals`.
proof fn lemma_dims_from_decimal_parts(parts: Seq<Seq<char>>, vals: Seq<usize>)
    requires
        parts.len() == vals.len(),
        forall|i: int| 0 <= i < parts.len() ==> #[trigger] trim(parts[i]) == decimal(vals[i] as nat),
    ensures
        dims_from_parts(parts) == Some(vals),
    decreases parts.len(),
{
    if parts.len() == 0 {
        assert(vals =~= Seq::<usize>::empty());
    } else {
        lemma_dims_from_decimal_parts(parts.drop_last(), vals.drop_last());
        let k = parts.len() - 1;
        assert(trim(parts.last()) == decimal(vals[k] as nat));
        lemma_digits_value_decimal(vals[k] as nat);
        lemma_parse_decimal(vals[k]);
        assert(vals.drop_last().push(vals.last()) =~= vals);
    }
}

// ---------------------------------------------------------------------------
// The shape entry
// ---------------------------------------------------------------------------

/// What a shape tuple holds between its parentheses.
pub open spec fn tuple_inner(shape: Seq<usize>) -> Seq<char> {
    if shape.len() == 0 {
        Seq::empty()
    } else if shape.len() == 1 {
        decimal(shape[0] as nat) + ","@
    } else {
        joined_dims(shape)
    }
}

proof fn lemma_joined_chars(shape: Seq<usize>)
    ensures
        forall|k: int| 0 <= k < joined_dims(shape).len() ==> #[trigger] joined_dims(shape)[k] != ')',
    decreases shape.len(),
{
    reveal_strlit(", ");
    if shape.len() == 1 {
        lemma_decimal_digits(shape[0] as nat);
    } else if shape.len() >= 2 {
        lemma_joined_chars(shape.drop_last());
        lemma_decimal_digits(shape.last() as nat);
        let a = joined_dims(shape.drop_last());
        let b = a + ", "@;
        let c = b + decimal(shape.last() as nat);
        assert forall|k: int| 0 <= k < c.len() implies #[trigger] c[k] != ')' by {
            if k < a.len() {
                assert(c[k] == a[k]);
            } else if k < b.len() {
                assert(c[k] == ", "@[k - a.len()]);
            } else {
                assert(c[k] == decimal(shape.last() as nat)[k - b.len()]);
            }
        }
    }
}

proof fn lemma_tuple_parts(shape: Seq<usize>)
    ensures
        shape_tuple_spec(shape) == "("@ + tuple_inner(shape) + ")"@,
        forall|k: int| 0 <= k < tuple_inner(shape).len() ==> #[trigger] tuple_inner(shape)[k] != ')',
{
    reveal_strlit("()");
    reveal_strlit("(");
    reveal_strlit(")");
    reveal_strlit(",)");
    reveal_strlit(",");
    if shape.len() == 0 {
        assert(shape_tuple_spec(shape) =~= "("@ + tuple_inner(shape) + ")"@);
    } else if shape.len() == 1 {
        lemma_decimal_digits(shape[0] as nat);
        assert(shape_tuple_spec(shape) =~= "("@ + tuple_inner(shape) + ")"@);
        let d = decimal(shape[0] as nat);
        assert forall|k: int| 0 <= k < tuple_inner(shape).len() implies #[trigger] tuple_inner(shape)[k] != ')' by {
            if k < d.len() {
                assert(tuple_inner(shape)[k] == d[k]);
            }
        }
    } else {
        lemma_joined_chars(shape);
    }
}

#[verifier::spinoff_prover]
#[verifier::rlimit(60)]
proof fn lemma_shape_body(dtype: DType, shape: Seq<usize>)
    ensures
        shape_body_spec(header_text(dtype, shape)) == Some(trim(tuple_inner(shape))),
{
    reveal_strlit("shape");
    reveal_strlit("(");
    reveal_strlit(")");
    reveal_strlit("{'descr': '");
    reveal_strlit("', 'fortran_order': False, 'shape': ");
    lemma_header_layout(dtype, shape);
    lemma_descr_chars(dtype);
    lemma_tuple_parts(shape);
    let h = header_text(dtype, shape);
    let t = shape_tuple_spec(shape);
    let inner = tuple_inner(shape);
    let pat = "shape"@;
    assert(t[0] == '(');
    assert(t[inner.len() + 1int] == ')');
    assert forall|k: int| 0 <= k < inner.len() implies #[trigger] t[1 + k] == inner[k] by {}
    // "shape" first occurs at 42.
    assert(h.subrange(42, 47) =~= pat) by {
        assert forall|k: int| 0 <= k < 5 implies h.subrange(42, 47)[k] == pat[k] by {
            assert(h[14 + (28 + k)] == header_middle()[28 + k]);
        }
    }
    assert forall|k: int| 0 <= k <= 42 implies #[trigger] h[k] != 'h' by {
        if k < 11 {
            assert(h[k] == header_head()[k]);
        } else if k < 14 {
            assert(h[11 + (k - 11)] == descr_spec(dtype)[k - 11]);
        } else {
            assert(h[14 + (k - 14)] == header_middle()[k - 14]);
        }
    }
    assert forall|j: int| 0 <= j < 42 implies !matches_at(h, pat, j) by {
        if matches_at(h, pat, j) {
            assert(h.subrange(j, j + 5)[1] == h[j + 1]);
        }
    }
    lemma_find_first(h, pat, 42);
    // The opening parenthesis eight characters later.
    let after_shape = h.subrange(42, h.len() as int);
    assert forall|k: int| 0 <= k < 8 implies after_shape[k] != '(' by {
        assert(after_shape[k] == h[14 + (28 + k)]);
    }
    assert(after_shape[8] == h[50int + 0]);
    lemma_find_char(after_shape, '(', 8);
    assert("("@ =~= seq!['(']);
    // The closing parenthesis right after the tuple's contents.
    let after_open = after_shape.subrange(9, after_shape.len() as int);
    assert(after_open =~= h.subrange(51, h.len() as int));
    assert forall|k: int| 0 <= k < inner.len() implies after_open[k] != ')' by {
        assert(after_open[k] == h[50 + (1 + k)]);
    }
    assert(after_open[inner.len() as int] == h[50int + (inner.len() + 1)]);
    lemma_find_char(after_open, ')', inner.len() as int);
    assert(")"@ =~= seq![')']);
    assert(after_open.take(inner.len() as int) =~= inner) by {
        assert forall|k: int| 0 <= k < inner.len() implies after_open.take(inner.len() as int)[k] == inner[k] by {
            assert(after_open[k] == h[50 + (1 + k)]);
        }
    }
}

#[verifier::spinoff_prover]
#[verifier::rlimit(60)]
proof fn lemma_inner_dims_one(shape: Seq<usize>)
    requires
        shape.len() == 1,
    ensures
        dims_spec(trim(tuple_inner(shape))) == Some(shape),
{
    reveal_strlit(",");
    let inner = tuple_inner(shape);
    let d = decimal(shape[0] as nat);
    lemma_digits_value_decimal(shape[0] as nat);
    lemma_decimal_digits(shape[0] as nat);
    lemma_decimal_no_comma(shape[0] as nat);
    assert(inner[0] == d[0]);
    assert(inner.last() == ',');
    lemma_trim_fixed(inner);
    assert(inner =~= d + seq![','] + Seq::<char>::empty());
    lemma_split_at_comma(d, Seq::<char>::empty());
    lemma_split_no_comma(Seq::<char>::empty());
    let parts = seq![d, Seq::<char>::empty()];
    assert(split_commas(inner) =~= parts);
    lemma_trim_decimal(shape[0] as nat);
    lemma_dims_from_decimal_parts(seq![d], shape);
    assert(parts.drop_last() =~= seq![d]);
    assert(trim(parts.last()).len() == 0) by {
        assert(trim_start(Seq::<char>::empty()) == Seq::<char>::empty());
        assert(trim_end(Seq::<char>::empty()) == Seq::<char>::empty());
    }
    assert(dims_from_parts(parts) == Some(shape));
    assert(dims_spec(inner) == dims_from_parts(split_commas(inner)));
}

#[verifier::spinoff_prover]
#[verifier::rlimit(40)]
proof fn lemma_inner_dims_many(shape: Seq<usize>)
    requires
        shape.len() >= 2,
    ensures
        dims_spec(trim(tuple_inner(shape))) == Some(shape),
{
    let inner = tuple_inner(shape);
    lemma_joined_front(shape);
    let first = decimal(shape[0] as nat);
    let last = decimal(shape.last() as nat);
    lemma_digits_value_decimal(shape[0] as nat);
    lemma_digits_value_decimal(shape.last() as nat);
    lemma_decimal_digits(shape[0] as nat);
    lemma_decimal_digits(shape.last() as nat);
    assert(inner[0] == first[0]);
    assert(inner.last() == last.last());
    lemma_trim_fixed(inner);
    assert(Seq::<char>::empty() + inner =~= inner);
    lemma_split_joined(Seq::<char>::empty(), shape);
    let parts = seq![Seq::<char>::empty() + first] + Seq::new(
        (shape.len() - 1) as nat,
        |i: int| " "@ + decimal(shape[i + 1] as nat),
    );
    assert forall|i: int| 0 <= i < parts.len() implies #[trigger] trim(parts[i]) == decimal(shape[i] as nat) by {
        lemma_trim_decimal(shape[i] as nat);
        if i == 0 {
            assert(parts[0] =~= first);
        } else {
            assert(parts[i] == " "@ + decimal(shape[i] as nat));
        }
    }
    lemma_dims_from_decimal_parts(parts, shape);
}

/// The contents of a written shape tuple list the shape.
proof fn lemma_inner_dims(shape: Seq<usize>)
    ensures
        dims_spec(trim(tuple_inner(shape))) == Some(shape),
{
    let inner = tuple_inner(shape);
    if shape.len() == 0 {
        assert(trim_start(inner) == inner);
        assert(trim_end(inner) == inner);
        assert(shape =~= Seq::<usize>::empty());
    } else if shape.len() == 1 {
        lemma_inner_dims_one(shape);
    } else {
        lemma_inner_dims_many(shape);
    }
}

/// What `npy_header` writes, `parse_header` reads back: for every dtype the
/// writer accepts and every shape, the header names that dtype, C order and
/// that shape.
pub proof fn lemma_npy_header_roundtrip(dtype: DType, shape: Seq<usize>)
    requires
        !(dtype is BFloat16),
    ensures
        header_dtype_spec(header_text(dtype, shape)) == Some(dtype),
        c_order_spec(header_text(dtype, shape)),
        header_dims_spec(header_text(dtype, shape)) == Some(shape),
{
    lemma_written_dtype(dtype, shape);
    lemma_written_c_order(dtype, shape);
    lemma_shape_body(dtype, shape);
    lemma_inner_dims(shape);
}

// ---------------------------------------------------------------------------
// The preamble and bool payloads
// ---------------------------------------------------------------------------

/// The header of a written file is found where it was written: right after
/// the ten preamble bytes, whatever payload follows.
pub proof fn lemma_npy_span_roundtrip(header: Seq<char>, payload: Seq<u8>)
    requires
        header.len() <= 0xffff,
    ensures
        header_span_spec(npy_v1_preamble(header) + payload) == Some((10nat, header.len())),
{
    let bytes = npy_v1_preamble(header) + payload;
    let len = header.len();
    assert(bytes.take(6) =~= npy_magic());
    assert(bytes[6] == 1u8);
    assert(bytes[7] == 0u8);
    assert(bytes[8] == (len % 256) as u8);
    assert(bytes[9] == (len / 256) as u8);
    assert(bytes[8] as nat + 256 * (bytes[9] as nat) == len);
}

/// Bool values read back from the payload written for them.
pub proof fn lemma_bool_payload_roundtrip(values: Seq<bool>)
    ensures
        values.map_values(|b: bool| if b { 1u8 } else { 0u8 }).take(values.len() as int).map_values(
            |b: u8| b != 0,
        ) == values,
{
    let bytes = values.map_values(|b: bool| if b { 1u8 } else { 0u8 });
    assert(bytes.take(values.len() as int) =~= bytes);
    assert(bytes.map_values(|b: u8| b != 0) =~= values);
}

// ---------------------------------------------------------------------------
// Integer payloads
// ---------------------------------------------------------------------------

pub(crate) proof fn lemma_le_value_le_bytes(x: u64)
    ensures
        le_value(le_bytes_u64(x)) == x,
{
    let c = le_bytes_u64(x);
    lemma_le_value_8(c);
    assert(((x & 0xffu64) as u8) as nat + 256 * ((((x >> 8u64) & 0xffu64) as u8) as nat + 256 * ((((x >> 16u64)
        & 0xffu64) as u8) as nat + 256 * ((((x >> 24u64) & 0xffu64) as u8) as nat + 256 * ((((x >> 32u64)
        & 0xffu64) as u8) as nat + 256 * ((((x >> 40u64) & 0xffu64) as u8) as nat + 256 * ((((x >> 48u64)
        & 0xffu64) as u8) as nat + 256 * (((x >> 56u64) & 0xffu64) as u8) as nat)))))) == x) by (bit_vector);
    assert(c[0] == ((x >> 0u64) & 0xffu64) as u8);
    assert((x >> 0u64) == x) by (bit_vector);
}

proof fn lemma_i64_payload_len(values: Seq<i64>)
    ensures
        i64_payload(values).len() == values.len() * 8,
    decreases values.len(),
{
    if values.len() > 0 {
        lemma_i64_payload_len(values.drop_last());
    }
}

proof fn lemma_i64_payload_chunk(values: Seq<i64>, i: int)
    requires
        0 <= i < values.len(),
    ensures
        i64_payload(values).subrange(8 * i, 8 * i + 8) == le_bytes_u64(values[i] as u64),
    decreases values.len(),
{
    let prev = values.drop_last();
    lemma_i64_payload_len(prev);
    let enc = i64_payload(values);
    assert(enc == i64_payload(prev) + le_bytes_u64(values.last() as u64));
    if i < values.len() - 1 {
        lemma_i64_payload_chunk(prev, i);
        assert(enc.subrange(8 * i, 8 * i + 8) =~= i64_payload(prev).subrange(8 * i, 8 * i + 8));
    } else {
        assert(enc.subrange(8 * i, 8 * i + 8) =~= le_bytes_u64(values.last() as u64));
    }
}

/// `i64` values read back from the payload written for them.
pub proof fn lemma_i64_payload_roundtrip(values: Seq<i64>)
    ensures
        i64_payload(values).len() == values.len() * 8,
        forall|i: int| 0 <= i < values.len() ==> #[trigger] i64_at(i64_payload(values), i) == values[i],
{
    lemma_i64_payload_len(values);
    assert forall|i: int| 0 <= i < values.len() implies #[trigger] i64_at(i64_payload(values), i) == values[i] by {
        lemma_i64_payload_chunk(values, i);
        let v = values[i];
        lemma_le_value_le_bytes(v as u64);
        assert((v as u64) as i64 == v) by (bit_vector);
    }
}

} // verus!
