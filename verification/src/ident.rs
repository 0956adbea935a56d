//! Injection-safe physical identifiers.
//!
//! Every name that reaches executable schema or query text is produced
//! here, from a catalog-assigned integer id and a fixed role prefix.
//! No user-supplied text ever becomes part of an identifier, and every
//! generated identifier consists of lower-case letters, digits and
//! underscores only, so it is syntactically valid without quoting.

use vstd::prelude::*;
use vstd::string::StringExecFns;

use crate::Id;

verus! {

/// The character that writes a decimal digit.
pub open spec fn digit_char(d: int) -> char {
    if d == 0 {
        '0'
    } else if d == 1 {
        '1'
    } else if d == 2 {
        '2'
    } else if d == 3 {
        '3'
    } else if d == 4 {
        '4'
    } else if d == 5 {
        '5'
    } else if d == 6 {
        '6'
    } else if d == 7 {
        '7'
    } else if d == 8 {
        '8'
    } else {
        '9'
    }
}

/// The decimal digits of `n`, most significant first, no leading zeros.
pub open spec fn spec_digits(n: nat) -> Seq<char>
    decreases n,
{
    if n < 10 {
        seq![digit_char(n as int)]
    } else {
        spec_digits(n / 10) + seq![digit_char((n % 10) as int)]
    }
}

/// A character that may stand in an unquoted identifier.
pub open spec fn ident_char_ok(c: char) -> bool {
    ('a' <= c && c <= 'z') || ('0' <= c && c <= '9') || c == '_'
}

/// A sequence fit to stand as an unquoted identifier.
pub open spec fn ident_chars_ok(s: Seq<char>) -> bool {
    forall|i: int| 0 <= i < s.len() ==> ident_char_ok(s[i])
}

pub proof fn lemma_digits_safe(n: nat)
    ensures
        ident_chars_ok(spec_digits(n)),
        spec_digits(n).len() >= 1,
    decreases n,
{
    if n >= 10 {
        lemma_digits_safe(n / 10);
    }
}

fn digit_str(d: u32) -> (r: &'static str)
    requires
        d < 10,
    ensures
        r@ == seq![digit_char(d as int)],
{
    proof {
        reveal_strlit("0");
        reveal_strlit("1");
        reveal_strlit("2");
        reveal_strlit("3");
        reveal_strlit("4");
        reveal_strlit("5");
        reveal_strlit("6");
        reveal_strlit("7");
        reveal_strlit("8");
        reveal_strlit("9");
    }
    let r = match d {
        0 => "0",
        1 => "1",
        2 => "2",
        3 => "3",
        4 => "4",
        5 => "5",
        6 => "6",
        7 => "7",
        8 => "8",
        _ => "9",
    };
    proof {
        assert(r@ =~= seq![digit_char(d as int)]);
    }
    r
}

/// Appends the decimal digits of `n` to `out`.
pub fn push_digits(n: u32, out: &mut String)
    ensures
        final(out)@ == old(out)@ + spec_digits(n as nat),
    decreases n,
{
    if n >= 10 {
        push_digits(n / 10, out);
        out.append(digit_str(n % 10));
        proof {
            assert(final(out)@ =~= old(out)@ + spec_digits(n as nat));
        }
    } else {
        out.append(digit_str(n));
    }
}

/// The physical name of a table's relation.
pub open spec fn spec_table_ident(id: int) -> Seq<char> {
    "data_table_"@ + spec_digits(id as nat)
}

/// The physical name of a field's column.
pub open spec fn spec_field_ident(id: int) -> Seq<char> {
    "field_"@ + spec_digits(id as nat)
}

/// The physical name of a chart's view.
pub open spec fn spec_chart_ident(id: int) -> Seq<char> {
    "data_view_"@ + spec_digits(id as nat)
}

/// The name of an axis's result column in its chart's view.
pub open spec fn spec_axis_ident(id: int) -> Seq<char> {
    "axis_"@ + spec_digits(id as nat)
}

/// Appends a role prefix and the digits of a nonnegative id.
fn push_ident(prefix: &'static str, id: Id, out: &mut String)
    requires
        id >= 0,
    ensures
        final(out)@ == old(out)@ + prefix@ + spec_digits(id as nat),
{
    out.append(prefix);
    push_digits(id as u32, out);
    proof {
        assert(final(out)@ =~= old(out)@ + prefix@ + spec_digits(id as nat));
    }
}

/// The physical name of a table's relation.
pub fn table_ident(id: Id) -> (r: String)
    requires
        id >= 0,
    ensures
        r@ == spec_table_ident(id as int),
{
    let mut s = String::new();
    push_ident("data_table_", id, &mut s);
    proof {
        assert(s@ =~= spec_table_ident(id as int));
    }
    s
}

/// The physical name of a field's column.
pub fn field_ident(id: Id) -> (r: String)
    requires
        id >= 0,
    ensures
        r@ == spec_field_ident(id as int),
{
    let mut s = String::new();
    push_ident("field_", id, &mut s);
    proof {
        assert(s@ =~= spec_field_ident(id as int));
    }
    s
}

/// The physical name of a chart's view.
pub fn chart_ident(id: Id) -> (r: String)
    requires
        id >= 0,
    ensures
        r@ == spec_chart_ident(id as int),
{
    let mut s = String::new();
    push_ident("data_view_", id, &mut s);
    proof {
        assert(s@ =~= spec_chart_ident(id as int));
    }
    s
}

/// The name of an axis's result column in its chart's view.
pub fn axis_ident(id: Id) -> (r: String)
    requires
        id >= 0,
    ensures
        r@ == spec_axis_ident(id as int),
{
    let mut s = String::new();
    push_ident("axis_", id, &mut s);
    proof {
        assert(s@ =~= spec_axis_ident(id as int));
    }
    s
}

/// Every generated identifier is injection-safe: it consists of
/// lower-case letters, digits and underscores alone, whatever id it was
/// generated from.
pub proof fn lemma_idents_safe(id: int)
    requires
        id >= 0,
    ensures
        ident_chars_ok(spec_table_ident(id)),
        ident_chars_ok(spec_field_ident(id)),
        ident_chars_ok(spec_chart_ident(id)),
        ident_chars_ok(spec_axis_ident(id)),
{
    lemma_digits_safe(id as nat);
    reveal_strlit("data_table_");
    reveal_strlit("field_");
    reveal_strlit("data_view_");
    reveal_strlit("axis_");
    assert forall|i: int| 0 <= i < spec_table_ident(id).len() implies ident_char_ok(
        spec_table_ident(id)[i],
    ) by {
        if i < "data_table_"@.len() {
            assert(ident_char_ok("data_table_"@[i]));
        }
    }
    assert forall|i: int| 0 <= i < spec_field_ident(id).len() implies ident_char_ok(
        spec_field_ident(id)[i],
    ) by {
        if i < "field_"@.len() {
            assert(ident_char_ok("field_"@[i]));
        }
    }
    assert forall|i: int| 0 <= i < spec_chart_ident(id).len() implies ident_char_ok(
        spec_chart_ident(id)[i],
    ) by {
        if i < "data_view_"@.len() {
            assert(ident_char_ok("data_view_"@[i]));
        }
    }
    assert forall|i: int| 0 <= i < spec_axis_ident(id).len() implies ident_char_ok(
        spec_axis_ident(id)[i],
    ) by {
        if i < "axis_"@.len() {
            assert(ident_char_ok("axis_"@[i]));
        }
    }
}

/// Distinct ids give distinct identifiers: digits write the id
/// uniquely, so physical names never collide.
pub proof fn lemma_digits_injective(a: nat, b: nat)
    requires
        spec_digits(a) == spec_digits(b),
    ensures
        a == b,
    decreases a,
{
    lemma_digits_safe(a);
    lemma_digits_safe(b);
    if a < 10 && b < 10 {
        assert(spec_digits(a) == seq![digit_char(a as int)]);
        assert(spec_digits(b) == seq![digit_char(b as int)]);
        assert(seq![digit_char(a as int)][0] == digit_char(a as int));
        assert(seq![digit_char(b as int)][0] == digit_char(b as int));
        assert(digit_char(a as int) == digit_char(b as int));
        assert(a == b) by {
            if a != b {
                assert(digit_char(a as int) != digit_char(b as int));
            }
        }
    } else if a >= 10 && b >= 10 {
        assert(spec_digits(a) == spec_digits(a / 10) + seq![digit_char((a % 10) as int)]);
        assert(spec_digits(b) == spec_digits(b / 10) + seq![digit_char((b % 10) as int)]);
        assert(spec_digits(a).last() == digit_char((a % 10) as int)) by {
            lemma_digits_safe(a / 10);
        }
        assert(spec_digits(b).last() == digit_char((b % 10) as int)) by {
            lemma_digits_safe(b / 10);
        }
        assert(digit_char((a % 10) as int) == digit_char((b % 10) as int));
        assert(a % 10 == b % 10) by {
            if a % 10 != b % 10 {
                assert(digit_char((a % 10) as int) != digit_char((b % 10) as int));
            }
        }
        assert(spec_digits(a).drop_last() =~= spec_digits(a / 10));
        assert(spec_digits(b).drop_last() =~= spec_digits(b / 10));
        lemma_digits_injective(a / 10, b / 10);
        assert(a == 10 * (a / 10) + a % 10);
        assert(b == 10 * (b / 10) + b % 10);
    } else {
        lemma_digits_len_ge_two(if a >= 10 {
            a
        } else {
            b
        });
        assert(false);
    }
}

proof fn lemma_digits_len_ge_two(n: nat)
    requires
        n >= 10,
    ensures
        spec_digits(n).len() >= 2,
{
    lemma_digits_safe(n / 10);
}

} // verus!
