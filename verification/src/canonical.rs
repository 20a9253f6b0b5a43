//! The canonical text of a JSON value can be read in one way only: two
//! values with the same text are the same value.

use vstd::prelude::*;
use crate::json::{
    decimal_literal, escaped, escaped_char, exponent_text, fields_text, hex_char, items_text,
    json_text, lemma_number_text_reads_back, number_text, quoted, JsonNumber, JsonView,
};
use crate::text::{decimal, is_digit, lemma_decimal_denotes};

verus! {

/// Whether `rest` can stand behind a value inside a document: it is empty, or
/// it begins with a comma or a closing bracket.
pub open spec fn closes(rest: Seq<char>) -> bool {
    rest.len() == 0 || rest[0] == ',' || rest[0] == ']' || rest[0] == '}'
}

/// What stands behind the same beginning is the same.
pub proof fn lemma_strip(p: Seq<char>, r: Seq<char>, s: Seq<char>)
    requires
        p + r == p + s,
    ensures
        r == s,
{
    assert(r =~= (p + r).subrange(p.len() as int, (p + r).len() as int));
    assert(s =~= (p + s).subrange(p.len() as int, (p + s).len() as int));
}

/// Two texts that are cut at the same place have the same parts.
proof fn lemma_same_length(a: Seq<char>, b: Seq<char>, r: Seq<char>, s: Seq<char>)
    requires
        a + r == b + s,
        a.len() == b.len(),
    ensures
        a == b,
        r == s,
{
    assert(a =~= (a + r).subrange(0, a.len() as int));
    assert(b =~= (b + s).subrange(0, b.len() as int));
    lemma_strip(a, r, s);
}

/// The escaped text of a string begins with its first character, escaped.
proof fn lemma_escaped_front(s: Seq<char>)
    requires
        s.len() > 0,
    ensures
        escaped(s) == escaped_char(s[0]) + escaped(s.drop_first()),
    decreases s.len(),
{
    let nothing = Seq::<char>::empty();
    if s.len() == 1 {
        assert(s.drop_last() =~= nothing);
        assert(s.drop_first() =~= nothing);
        assert(escaped(nothing) =~= nothing);
        assert(escaped(s) =~= escaped_char(s[0]) + escaped(s.drop_first()));
    } else {
        lemma_escaped_front(s.drop_last());
        assert(s.drop_last().drop_first() =~= s.drop_first().drop_last());
        assert(s.drop_last()[0] == s[0]);
        assert(s.drop_first().last() == s.last());
        assert(escaped(s) == escaped(s.drop_last()) + escaped_char(s.last()));
        assert(escaped(s.drop_first()) == escaped(s.drop_first().drop_last()) + escaped_char(
            s.last(),
        ));
        assert(escaped(s) =~= escaped_char(s[0]) + escaped(s.drop_first()));
    }
}

/// An escaped character is read in one way only, whatever stands behind it.
proof fn lemma_escaped_char_frames(c: char, d: char, r: Seq<char>, s: Seq<char>)
    requires
        escaped_char(c) + r == escaped_char(d) + s,
    ensures
        c == d,
        r == s,
{
    let x = escaped_char(c);
    let y = escaped_char(d);
    assert((x + r)[0] == x[0]);
    assert((y + s)[0] == y[0]);
    if x.len() >= 2 {
        assert((x + r)[1] == x[1]);
    }
    if y.len() >= 2 {
        assert((y + s)[1] == y[1]);
    }
    if x.len() == 6 && y.len() == 6 {
        assert((x + r)[4] == x[4]);
        assert((y + s)[4] == y[4]);
        assert((x + r)[5] == x[5]);
        assert((y + s)[5] == y[5]);
        let ch = (c as u32 / 16) as nat;
        let cl = (c as u32 % 16) as nat;
        let dh = (d as u32 / 16) as nat;
        let dl = (d as u32 % 16) as nat;
        assert(hex_char(ch) == hex_char(dh));
        assert(hex_char(cl) == hex_char(dl));
        assert(ch < 2 && dh < 2);
        assert(cl < 16 && dl < 16);
        assert(ch == dh);
        assert(cl == dl);
        assert(c as u32 == d as u32);
    }
    assert(c == d);
    lemma_strip(x, r, s);
}

/// The escaped text of a string is read in one way only up to the quote that
/// ends it.
proof fn lemma_escaped_frames(a: Seq<char>, b: Seq<char>, r: Seq<char>, s: Seq<char>)
    requires
        escaped(a) + (seq!['"'] + r) == escaped(b) + (seq!['"'] + s),
    ensures
        a == b,
        r == s,
    decreases a.len(),
{
    let ra = seq!['"'] + r;
    let rb = seq!['"'] + s;
    if a.len() == 0 && b.len() == 0 {
        assert(escaped(a) + ra =~= ra);
        assert(escaped(b) + rb =~= rb);
        lemma_strip(seq!['"'], r, s);
        assert(a =~= b);
    } else if a.len() == 0 {
        lemma_escaped_front(b);
        assert(escaped(a) + ra =~= ra);
        assert(ra[0] == '"');
        assert((escaped(b) + rb)[0] == escaped_char(b[0])[0]);
        assert(false);
    } else if b.len() == 0 {
        lemma_escaped_front(a);
        assert(escaped(b) + rb =~= rb);
        assert(rb[0] == '"');
        assert((escaped(a) + ra)[0] == escaped_char(a[0])[0]);
        assert(false);
    } else {
        lemma_escaped_front(a);
        lemma_escaped_front(b);
        let ta = escaped(a.drop_first()) + ra;
        let tb = escaped(b.drop_first()) + rb;
        assert(escaped(a) + ra =~= escaped_char(a[0]) + ta);
        assert(escaped(b) + rb =~= escaped_char(b[0]) + tb);
        lemma_escaped_char_frames(a[0], b[0], ta, tb);
        lemma_escaped_frames(a.drop_first(), b.drop_first(), r, s);
        assert(a =~= seq![a[0]] + a.drop_first());
        assert(b =~= seq![b[0]] + b.drop_first());
    }
}

/// A quoted string is read in one way only, whatever stands behind it.
pub proof fn lemma_quoted_frames(a: Seq<char>, b: Seq<char>, r: Seq<char>, s: Seq<char>)
    requires
        quoted(a) + r == quoted(b) + s,
    ensures
        a == b,
        r == s,
{
    let ta = escaped(a) + (seq!['"'] + r);
    let tb = escaped(b) + (seq!['"'] + s);
    assert(quoted(a) + r =~= seq!['"'] + ta);
    assert(quoted(b) + s =~= seq!['"'] + tb);
    lemma_strip(seq!['"'], ta, tb);
    lemma_escaped_frames(a, b, r, s);
}

/// Whether `c` can stand in the text of a number.
pub open spec fn number_char(c: char) -> bool {
    c == '-' || c == 'e' || is_digit(c)
}

/// The text of a number is not empty, begins with the sign or a digit, and
/// holds nothing but the sign, digits and the exponent mark.
proof fn lemma_number_chars(n: JsonNumber)
    ensures
        number_text(n).len() > 0,
        number_text(n)[0] == '-' || is_digit(number_text(n)[0]),
        forall|i: int| 0 <= i < number_text(n).len() ==> number_char(#[trigger] number_text(n)[i]),
{
    let sign = if n.negative {
        seq!['-']
    } else {
        Seq::<char>::empty()
    };
    let digits = decimal(n.mantissa as nat);
    let tail = exponent_text(n.exponent as int);
    let text = number_text(n);
    lemma_decimal_denotes(n.mantissa as nat);
    assert(is_digit(digits[0]));
    let e = n.exponent as int;
    if e < 0 {
        lemma_decimal_denotes((-e) as nat);
    } else if e > 0 {
        lemma_decimal_denotes(e as nat);
    }
    assert forall|i: int| 0 <= i < tail.len() implies number_char(#[trigger] tail[i]) by {
        if e < 0 {
            if i >= 2 {
                assert(tail[i] == decimal((-e) as nat)[i - 2]);
            }
        } else if e > 0 {
            if i >= 1 {
                assert(tail[i] == decimal(e as nat)[i - 1]);
            }
        }
    }
    assert(text == sign + digits + tail);
    assert forall|i: int| 0 <= i < text.len() implies number_char(#[trigger] text[i]) by {
        if i < sign.len() {
            assert(text[i] == sign[i]);
        } else if i < sign.len() + digits.len() {
            assert(text[i] == digits[i - sign.len()]);
        } else {
            assert(text[i] == tail[i - sign.len() - digits.len()]);
        }
    }
    if n.negative {
        assert(text[0] == sign[0]);
    } else {
        assert(text[0] == digits[0]);
    }
}

/// The text of a number is read in one way only, where what stands behind it
/// can stand behind a value.
pub proof fn lemma_number_frames(n: JsonNumber, m: JsonNumber, r: Seq<char>, s: Seq<char>)
    requires
        number_text(n) + r == number_text(m) + s,
        closes(r),
        closes(s),
    ensures
        n == m,
        r == s,
{
    let x = number_text(n);
    let y = number_text(m);
    lemma_number_chars(n);
    lemma_number_chars(m);
    assert((x + r).len() == (y + s).len());
    if x.len() < y.len() {
        let at = x.len() as int;
        assert(r.len() > 0);
        assert((x + r)[at] == r[0]);
        assert((y + s)[at] == y[at]);
        assert(number_char(y[at]));
        assert(false);
    }
    if y.len() < x.len() {
        let at = y.len() as int;
        assert(s.len() > 0);
        assert((y + s)[at] == s[0]);
        assert((x + r)[at] == x[at]);
        assert(number_char(x[at]));
        assert(false);
    }
    lemma_same_length(x, y, r, s);
    lemma_number_text_reads_back(n);
    lemma_number_text_reads_back(m);
    assert(decimal_literal(x) == Some(n));
    assert(decimal_literal(y) == Some(m));
}

/// Whether `c` is the character that the text of `v` begins with.
pub open spec fn begins(v: JsonView, c: char) -> bool {
    match v {
        JsonView::Null => c == 'n',
        JsonView::Bool(b) => c == (if b {
            't'
        } else {
            'f'
        }),
        JsonView::Number(_) => c == '-' || is_digit(c),
        JsonView::String(_) => c == '"',
        JsonView::Array(_) => c == '[',
        JsonView::Object(_) => c == '{',
    }
}

/// The text of a value is not empty, and its first character tells the kind
/// of the value.
proof fn lemma_begins(v: JsonView)
    ensures
        json_text(v).len() > 0,
        begins(v, json_text(v)[0]),
{
    match v {
        JsonView::Number(n) => {
            lemma_number_chars(n);
        },
        JsonView::String(text) => {
            assert(quoted(text)[0] == '"');
        },
        JsonView::Array(items) => {
            assert(json_text(v)[0] == '[');
        },
        JsonView::Object(fields) => {
            assert(json_text(v)[0] == '{');
        },
        _ => {},
    }
}

/// What stands behind the first item of a list of items, inside the text of
/// the list.
pub open spec fn items_behind(items: Seq<JsonView>) -> Seq<char> {
    if items.len() <= 1 {
        Seq::empty()
    } else {
        seq![','] + items_text(items.drop_first())
    }
}

/// The text of a list of items begins with the text of its first item.
proof fn lemma_items_front(items: Seq<JsonView>)
    requires
        items.len() > 0,
    ensures
        items_text(items) == json_text(items[0]) + items_behind(items),
    decreases items.len(),
{
    let head = items.drop_last();
    let tail = items.drop_first();
    if items.len() == 1 {
        assert(items.last() == items[0]);
        assert(items_text(items) =~= json_text(items[0]) + items_behind(items));
    } else {
        lemma_items_front(head);
        assert(head[0] == items[0]);
        assert(tail.last() == items.last());
        assert(head.drop_first() =~= tail.drop_last());
        assert(items_text(items) == items_text(head) + seq![','] + json_text(items.last()));
        if items.len() == 2 {
            assert(tail.len() == 1);
            assert(items_text(tail) == json_text(tail.last()));
            assert(items_behind(head) =~= Seq::<char>::empty());
        } else {
            assert(items_text(tail) == items_text(tail.drop_last()) + seq![','] + json_text(
                tail.last(),
            ));
        }
        assert(items_text(items) =~= json_text(items[0]) + items_behind(items));
    }
}

/// What stands behind the first field of a list of fields, inside the text
/// of the list.
pub open spec fn fields_behind(fields: Seq<(Seq<char>, JsonView)>) -> Seq<char> {
    if fields.len() <= 1 {
        Seq::empty()
    } else {
        seq![','] + fields_text(fields.drop_first())
    }
}

/// The text of a list of fields begins with its first field: the quoted
/// name, a colon and the value.
proof fn lemma_fields_front(fields: Seq<(Seq<char>, JsonView)>)
    requires
        fields.len() > 0,
    ensures
        fields_text(fields) == quoted(fields[0].0) + (seq![':'] + (json_text(fields[0].1)
            + fields_behind(fields))),
    decreases fields.len(),
{
    let head = fields.drop_last();
    let tail = fields.drop_first();
    if fields.len() == 1 {
        assert(fields.last() == fields[0]);
        assert(fields_text(fields) =~= quoted(fields[0].0) + (seq![':'] + (json_text(fields[0].1)
            + fields_behind(fields))));
    } else {
        lemma_fields_front(head);
        assert(head[0] == fields[0]);
        assert(tail.last() == fields.last());
        assert(head.drop_first() =~= tail.drop_last());
        assert(fields_text(fields) == fields_text(head) + seq![','] + quoted(fields.last().0)
            + seq![':'] + json_text(fields.last().1));
        if fields.len() == 2 {
            assert(tail.len() == 1);
            assert(fields_text(tail) == quoted(tail.last().0) + seq![':'] + json_text(
                tail.last().1,
            ));
            assert(fields_behind(head) =~= Seq::<char>::empty());
        } else {
            assert(fields_text(tail) == fields_text(tail.drop_last()) + seq![','] + quoted(
                tail.last().0,
            ) + seq![':'] + json_text(tail.last().1));
        }
        assert(fields_text(fields) =~= quoted(fields[0].0) + (seq![':'] + (json_text(fields[0].1)
            + fields_behind(fields))));
    }
}

/// The text of a value is read in one way only, where what stands behind it
/// can stand behind a value.
pub proof fn lemma_text_frames(v: JsonView, w: JsonView, r: Seq<char>, s: Seq<char>)
    requires
        json_text(v) + r == json_text(w) + s,
        closes(r),
        closes(s),
    ensures
        v == w,
        r == s,
    decreases v,
{
    let x = json_text(v);
    let y = json_text(w);
    lemma_begins(v);
    lemma_begins(w);
    assert((x + r)[0] == x[0]);
    assert((y + s)[0] == y[0]);
    match v {
        JsonView::Null => {
            assert(w is Null);
            lemma_strip(x, r, s);
        },
        JsonView::Bool(b) => {
            assert(w is Bool);
            assert(w->Bool_0 == b);
            lemma_strip(x, r, s);
        },
        JsonView::Number(n) => {
            assert(w is Number);
            lemma_number_frames(n, w->Number_0, r, s);
        },
        JsonView::String(a) => {
            assert(w is String);
            lemma_quoted_frames(a, w->String_0, r, s);
        },
        JsonView::Array(a) => {
            assert(w is Array);
            let b = w->Array_0;
            let ta = items_text(a) + (seq![']'] + r);
            let tb = items_text(b) + (seq![']'] + s);
            assert(x + r =~= seq!['['] + ta);
            assert(y + s =~= seq!['['] + tb);
            lemma_strip(seq!['['], ta, tb);
            lemma_items_frames(a, b, r, s);
        },
        JsonView::Object(a) => {
            assert(w is Object);
            let b = w->Object_0;
            let ta = fields_text(a) + (seq!['}'] + r);
            let tb = fields_text(b) + (seq!['}'] + s);
            assert(x + r =~= seq!['{'] + ta);
            assert(y + s =~= seq!['{'] + tb);
            lemma_strip(seq!['{'], ta, tb);
            lemma_fields_frames(a, b, r, s);
        },
    }
}

/// The text of a list of items is read in one way only up to the bracket
/// that ends it.
proof fn lemma_items_frames(a: Seq<JsonView>, b: Seq<JsonView>, r: Seq<char>, s: Seq<char>)
    requires
        items_text(a) + (seq![']'] + r) == items_text(b) + (seq![']'] + s),
    ensures
        a == b,
        r == s,
    decreases a,
{
    let ea = seq![']'] + r;
    let eb = seq![']'] + s;
    if a.len() == 0 && b.len() == 0 {
        assert(items_text(a) + ea =~= ea);
        assert(items_text(b) + eb =~= eb);
        lemma_strip(seq![']'], r, s);
        assert(a =~= b);
    } else if a.len() == 0 {
        lemma_items_front(b);
        lemma_begins(b[0]);
        assert(items_text(a) + ea =~= ea);
        assert(ea[0] == ']');
        assert((items_text(b) + eb)[0] == json_text(b[0])[0]);
        assert(false);
    } else if b.len() == 0 {
        lemma_items_front(a);
        lemma_begins(a[0]);
        assert(items_text(b) + eb =~= eb);
        assert(eb[0] == ']');
        assert((items_text(a) + ea)[0] == json_text(a[0])[0]);
        assert(false);
    } else {
        lemma_items_front(a);
        lemma_items_front(b);
        let ra = items_behind(a) + ea;
        let rb = items_behind(b) + eb;
        assert(items_text(a) + ea =~= json_text(a[0]) + ra);
        assert(items_text(b) + eb =~= json_text(b[0]) + rb);
        assert(ra[0] == (if a.len() == 1 {
            ']'
        } else {
            ','
        }));
        assert(rb[0] == (if b.len() == 1 {
            ']'
        } else {
            ','
        }));
        lemma_text_frames(a[0], b[0], ra, rb);
        if a.len() == 1 {
            assert(b.len() == 1);
            assert(ra =~= ea);
            assert(rb =~= eb);
            lemma_strip(seq![']'], r, s);
            assert(a =~= b);
        } else {
            assert(b.len() > 1);
            let ta = items_text(a.drop_first()) + ea;
            let tb = items_text(b.drop_first()) + eb;
            assert(ra =~= seq![','] + ta);
            assert(rb =~= seq![','] + tb);
            lemma_strip(seq![','], ta, tb);
            lemma_items_frames(a.drop_first(), b.drop_first(), r, s);
            assert(a =~= seq![a[0]] + a.drop_first());
            assert(b =~= seq![b[0]] + b.drop_first());
        }
    }
}

/// The text of a list of fields is read in one way only up to the bracket
/// that ends it.
proof fn lemma_fields_frames(
    a: Seq<(Seq<char>, JsonView)>,
    b: Seq<(Seq<char>, JsonView)>,
    r: Seq<char>,
    s: Seq<char>,
)
    requires
        fields_text(a) + (seq!['}'] + r) == fields_text(b) + (seq!['}'] + s),
    ensures
        a == b,
        r == s,
    decreases a,
{
    let ea = seq!['}'] + r;
    let eb = seq!['}'] + s;
    if a.len() == 0 && b.len() == 0 {
        assert(fields_text(a) + ea =~= ea);
        assert(fields_text(b) + eb =~= eb);
        lemma_strip(seq!['}'], r, s);
        assert(a =~= b);
    } else if a.len() == 0 {
        lemma_fields_front(b);
        assert(fields_text(a) + ea =~= ea);
        assert(ea[0] == '}');
        assert(quoted(b[0].0)[0] == '"');
        assert((fields_text(b) + eb)[0] == quoted(b[0].0)[0]);
        assert(false);
    } else if b.len() == 0 {
        lemma_fields_front(a);
        assert(fields_text(b) + eb =~= eb);
        assert(eb[0] == '}');
        assert(quoted(a[0].0)[0] == '"');
        assert((fields_text(a) + ea)[0] == quoted(a[0].0)[0]);
        assert(false);
    } else {
        lemma_fields_front(a);
        lemma_fields_front(b);
        let ra = fields_behind(a) + ea;
        let rb = fields_behind(b) + eb;
        let va = json_text(a[0].1) + ra;
        let vb = json_text(b[0].1) + rb;
        assert(fields_text(a) + ea =~= quoted(a[0].0) + (seq![':'] + va));
        assert(fields_text(b) + eb =~= quoted(b[0].0) + (seq![':'] + vb));
        lemma_quoted_frames(a[0].0, b[0].0, seq![':'] + va, seq![':'] + vb);
        lemma_strip(seq![':'], va, vb);
        assert(ra[0] == (if a.len() == 1 {
            '}'
        } else {
            ','
        }));
        assert(rb[0] == (if b.len() == 1 {
            '}'
        } else {
            ','
        }));
        lemma_text_frames(a[0].1, b[0].1, ra, rb);
        assert(a[0] == b[0]);
        if a.len() == 1 {
            assert(b.len() == 1);
            assert(ra =~= ea);
            assert(rb =~= eb);
            lemma_strip(seq!['}'], r, s);
            assert(a =~= b);
        } else {
            assert(b.len() > 1);
            let ta = fields_text(a.drop_first()) + ea;
            let tb = fields_text(b.drop_first()) + eb;
            assert(ra =~= seq![','] + ta);
            assert(rb =~= seq![','] + tb);
            lemma_strip(seq![','], ta, tb);
            lemma_fields_frames(a.drop_first(), b.drop_first(), r, s);
            assert(a =~= seq![a[0]] + a.drop_first());
            assert(b =~= seq![b[0]] + b.drop_first());
        }
    }
}

/// The canonical text tells values apart: two values with the same text are
/// the same value.
pub proof fn lemma_text_tells_apart(v: JsonView, w: JsonView)
    requires
        json_text(v) == json_text(w),
    ensures
        v == w,
{
    let nothing = Seq::<char>::empty();
    assert(json_text(v) + nothing =~= json_text(v));
    assert(json_text(w) + nothing =~= json_text(w));
    lemma_text_frames(v, w, nothing, nothing);
}

} // verus!
