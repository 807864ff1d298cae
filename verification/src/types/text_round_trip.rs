//! Law of the text of types: what is printed is read back.

use crate::errors::ErrorKind;
use crate::text::{
    ascii_digit, ascii_letter, back_space, decimal_text, lemma_parse_decimal_text, skip_space,
    spec_parse_usize, trimmed, whitespace,
};
use crate::types::SpecType;
use crate::types::parse::{
    identifier_char, identifier_end, scan_args, scan_start, scan_step, spec_eat_identifier,
    spec_from_str, spec_parse_applied, spec_parse_args, spec_parse_each, spec_parse_one,
    spec_parse_plain, spec_parse_zone, ArgScan,
};
use crate::types::print::{applied, type_text, types_text};
use crate::tz::{tz_name_char, tz_name_valid, utc_name};
use vstd::prelude::*;

verus! {

// ---------------------------------------------------------------------------
// Names

/// Whether `s` is made of ASCII letters and, behind the first character, of
/// ASCII digits.
pub open spec fn name_ok(s: Seq<char>) -> bool {
    &&& s.len() > 0
    &&& forall|i: int|
        0 <= i < s.len() ==> ascii_letter(#[trigger] s[i]) || (i > 0 && ascii_digit(s[i]))
}

/// What tells the names of the constructors apart: the length, the first
/// character and the last two.
pub open spec fn mark(s: Seq<char>) -> (int, char, char, char) {
    (s.len() as int, s[0], s[s.len() - 1], s[s.len() - 2])
}

/// The characters of each constructor's name.
proof fn lemma_names()
    ensures
        "Int8"@ == seq!['I', 'n', 't', '8'],
        "Int16"@ == seq!['I', 'n', 't', '1', '6'],
        "Int32"@ == seq!['I', 'n', 't', '3', '2'],
        "Int64"@ == seq!['I', 'n', 't', '6', '4'],
        "Int128"@ == seq!['I', 'n', 't', '1', '2', '8'],
        "Int256"@ == seq!['I', 'n', 't', '2', '5', '6'],
        "UInt8"@ == seq!['U', 'I', 'n', 't', '8'],
        "UInt16"@ == seq!['U', 'I', 'n', 't', '1', '6'],
        "UInt32"@ == seq!['U', 'I', 'n', 't', '3', '2'],
        "UInt64"@ == seq!['U', 'I', 'n', 't', '6', '4'],
        "UInt128"@ == seq!['U', 'I', 'n', 't', '1', '2', '8'],
        "UInt256"@ == seq!['U', 'I', 'n', 't', '2', '5', '6'],
        "Float32"@ == seq!['F', 'l', 'o', 'a', 't', '3', '2'],
        "Float64"@ == seq!['F', 'l', 'o', 'a', 't', '6', '4'],
        "String"@ == seq!['S', 't', 'r', 'i', 'n', 'g'],
        "UUID"@ == seq!['U', 'U', 'I', 'D'],
        "Date"@ == seq!['D', 'a', 't', 'e'],
        "DateTime"@ == seq!['D', 'a', 't', 'e', 'T', 'i', 'm', 'e'],
        "IPv4"@ == seq!['I', 'P', 'v', '4'],
        "IPv6"@ == seq!['I', 'P', 'v', '6'],
        "Decimal"@ == seq!['D', 'e', 'c', 'i', 'm', 'a', 'l'],
        "Decimal32"@ == seq!['D', 'e', 'c', 'i', 'm', 'a', 'l', '3', '2'],
        "Decimal64"@ == seq!['D', 'e', 'c', 'i', 'm', 'a', 'l', '6', '4'],
        "Decimal128"@ == seq!['D', 'e', 'c', 'i', 'm', 'a', 'l', '1', '2', '8'],
        "Decimal256"@ == seq!['D', 'e', 'c', 'i', 'm', 'a', 'l', '2', '5', '6'],
        "FixedString"@ == seq!['F', 'i', 'x', 'e', 'd', 'S', 't', 'r', 'i', 'n', 'g'],
        "DateTime64"@ == seq!['D', 'a', 't', 'e', 'T', 'i', 'm', 'e', '6', '4'],
        "Enum8"@ == seq!['E', 'n', 'u', 'm', '8'],
        "Enum16"@ == seq!['E', 'n', 'u', 'm', '1', '6'],
        "Nested"@ == seq!['N', 'e', 's', 't', 'e', 'd'],
        "LowCardinality"@ == seq!['L', 'o', 'w', 'C', 'a', 'r', 'd', 'i', 'n', 'a', 'l', 'i', 't', 'y'],
        "Array"@ == seq!['A', 'r', 'r', 'a', 'y'],
        "Nullable"@ == seq!['N', 'u', 'l', 'l', 'a', 'b', 'l', 'e'],
        "Tuple"@ == seq!['T', 'u', 'p', 'l', 'e'],
        "Map"@ == seq!['M', 'a', 'p'],
{
    reveal_strlit("Int8");
    assert("Int8"@ =~= seq!['I', 'n', 't', '8']);
    reveal_strlit("Int16");
    assert("Int16"@ =~= seq!['I', 'n', 't', '1', '6']);
    reveal_strlit("Int32");
    assert("Int32"@ =~= seq!['I', 'n', 't', '3', '2']);
    reveal_strlit("Int64");
    assert("Int64"@ =~= seq!['I', 'n', 't', '6', '4']);
    reveal_strlit("Int128");
    assert("Int128"@ =~= seq!['I', 'n', 't', '1', '2', '8']);
    reveal_strlit("Int256");
    assert("Int256"@ =~= seq!['I', 'n', 't', '2', '5', '6']);
    reveal_strlit("UInt8");
    assert("UInt8"@ =~= seq!['U', 'I', 'n', 't', '8']);
    reveal_strlit("UInt16");
    assert("UInt16"@ =~= seq!['U', 'I', 'n', 't', '1', '6']);
    reveal_strlit("UInt32");
    assert("UInt32"@ =~= seq!['U', 'I', 'n', 't', '3', '2']);
    reveal_strlit("UInt64");
    assert("UInt64"@ =~= seq!['U', 'I', 'n', 't', '6', '4']);
    reveal_strlit("UInt128");
    assert("UInt128"@ =~= seq!['U', 'I', 'n', 't', '1', '2', '8']);
    reveal_strlit("UInt256");
    assert("UInt256"@ =~= seq!['U', 'I', 'n', 't', '2', '5', '6']);
    reveal_strlit("Float32");
    assert("Float32"@ =~= seq!['F', 'l', 'o', 'a', 't', '3', '2']);
    reveal_strlit("Float64");
    assert("Float64"@ =~= seq!['F', 'l', 'o', 'a', 't', '6', '4']);
    reveal_strlit("String");
    assert("String"@ =~= seq!['S', 't', 'r', 'i', 'n', 'g']);
    reveal_strlit("UUID");
    assert("UUID"@ =~= seq!['U', 'U', 'I', 'D']);
    reveal_strlit("Date");
    assert("Date"@ =~= seq!['D', 'a', 't', 'e']);
    reveal_strlit("DateTime");
    assert("DateTime"@ =~= seq!['D', 'a', 't', 'e', 'T', 'i', 'm', 'e']);
    reveal_strlit("IPv4");
    assert("IPv4"@ =~= seq!['I', 'P', 'v', '4']);
    reveal_strlit("IPv6");
    assert("IPv6"@ =~= seq!['I', 'P', 'v', '6']);
    reveal_strlit("Decimal");
    assert("Decimal"@ =~= seq!['D', 'e', 'c', 'i', 'm', 'a', 'l']);
    reveal_strlit("Decimal32");
    assert("Decimal32"@ =~= seq!['D', 'e', 'c', 'i', 'm', 'a', 'l', '3', '2']);
    reveal_strlit("Decimal64");
    assert("Decimal64"@ =~= seq!['D', 'e', 'c', 'i', 'm', 'a', 'l', '6', '4']);
    reveal_strlit("Decimal128");
    assert("Decimal128"@ =~= seq!['D', 'e', 'c', 'i', 'm', 'a', 'l', '1', '2', '8']);
    reveal_strlit("Decimal256");
    assert("Decimal256"@ =~= seq!['D', 'e', 'c', 'i', 'm', 'a', 'l', '2', '5', '6']);
    reveal_strlit("FixedString");
    assert("FixedString"@ =~= seq!['F', 'i', 'x', 'e', 'd', 'S', 't', 'r', 'i', 'n', 'g']);
    reveal_strlit("DateTime64");
    assert("DateTime64"@ =~= seq!['D', 'a', 't', 'e', 'T', 'i', 'm', 'e', '6', '4']);
    reveal_strlit("Enum8");
    assert("Enum8"@ =~= seq!['E', 'n', 'u', 'm', '8']);
    reveal_strlit("Enum16");
    assert("Enum16"@ =~= seq!['E', 'n', 'u', 'm', '1', '6']);
    reveal_strlit("Nested");
    assert("Nested"@ =~= seq!['N', 'e', 's', 't', 'e', 'd']);
    reveal_strlit("LowCardinality");
    assert("LowCardinality"@ =~= seq!['L', 'o', 'w', 'C', 'a', 'r', 'd', 'i', 'n', 'a', 'l', 'i', 't', 'y']);
    reveal_strlit("Array");
    assert("Array"@ =~= seq!['A', 'r', 'r', 'a', 'y']);
    reveal_strlit("Nullable");
    assert("Nullable"@ =~= seq!['N', 'u', 'l', 'l', 'a', 'b', 'l', 'e']);
    reveal_strlit("Tuple");
    assert("Tuple"@ =~= seq!['T', 'u', 'p', 'l', 'e']);
    reveal_strlit("Map");
    assert("Map"@ =~= seq!['M', 'a', 'p']);
}

/// The marks of the constructors' names, no two of which are the same.
proof fn lemma_marks()
    ensures
        mark("Int8"@) == (4int, 'I', '8', 't'),
        mark("Int16"@) == (5int, 'I', '6', '1'),
        mark("Int32"@) == (5int, 'I', '2', '3'),
        mark("Int64"@) == (5int, 'I', '4', '6'),
        mark("Int128"@) == (6int, 'I', '8', '2'),
        mark("Int256"@) == (6int, 'I', '6', '5'),
        mark("UInt8"@) == (5int, 'U', '8', 't'),
        mark("UInt16"@) == (6int, 'U', '6', '1'),
        mark("UInt32"@) == (6int, 'U', '2', '3'),
        mark("UInt64"@) == (6int, 'U', '4', '6'),
        mark("UInt128"@) == (7int, 'U', '8', '2'),
        mark("UInt256"@) == (7int, 'U', '6', '5'),
        mark("Float32"@) == (7int, 'F', '2', '3'),
        mark("Float64"@) == (7int, 'F', '4', '6'),
        mark("String"@) == (6int, 'S', 'g', 'n'),
        mark("UUID"@) == (4int, 'U', 'D', 'I'),
        mark("Date"@) == (4int, 'D', 'e', 't'),
        mark("DateTime"@) == (8int, 'D', 'e', 'm'),
        mark("IPv4"@) == (4int, 'I', '4', 'v'),
        mark("IPv6"@) == (4int, 'I', '6', 'v'),
        mark("Decimal"@) == (7int, 'D', 'l', 'a'),
        mark("Decimal32"@) == (9int, 'D', '2', '3'),
        mark("Decimal64"@) == (9int, 'D', '4', '6'),
        mark("Decimal128"@) == (10int, 'D', '8', '2'),
        mark("Decimal256"@) == (10int, 'D', '6', '5'),
        mark("FixedString"@) == (11int, 'F', 'g', 'n'),
        mark("DateTime64"@) == (10int, 'D', '4', '6'),
        mark("Enum8"@) == (5int, 'E', '8', 'm'),
        mark("Enum16"@) == (6int, 'E', '6', '1'),
        mark("Nested"@) == (6int, 'N', 'd', 'e'),
        mark("LowCardinality"@) == (14int, 'L', 'y', 't'),
        mark("Array"@) == (5int, 'A', 'y', 'a'),
        mark("Nullable"@) == (8int, 'N', 'e', 'l'),
        mark("Tuple"@) == (5int, 'T', 'e', 'l'),
        mark("Map"@) == (3int, 'M', 'p', 'a'),
{
    lemma_names();
}

/// Each constructor's name is made of letters and digits.
proof fn lemma_names_ok()
    ensures
        name_ok("Int8"@),
        name_ok("Int16"@),
        name_ok("Int32"@),
        name_ok("Int64"@),
        name_ok("Int128"@),
        name_ok("Int256"@),
        name_ok("UInt8"@),
        name_ok("UInt16"@),
        name_ok("UInt32"@),
        name_ok("UInt64"@),
        name_ok("UInt128"@),
        name_ok("UInt256"@),
        name_ok("Float32"@),
        name_ok("Float64"@),
        name_ok("String"@),
        name_ok("UUID"@),
        name_ok("Date"@),
        name_ok("DateTime"@),
        name_ok("IPv4"@),
        name_ok("IPv6"@),
        name_ok("Decimal"@),
        name_ok("Decimal32"@),
        name_ok("Decimal64"@),
        name_ok("Decimal128"@),
        name_ok("Decimal256"@),
        name_ok("FixedString"@),
        name_ok("DateTime64"@),
        name_ok("Enum8"@),
        name_ok("Enum16"@),
        name_ok("Nested"@),
        name_ok("LowCardinality"@),
        name_ok("Array"@),
        name_ok("Nullable"@),
        name_ok("Tuple"@),
        name_ok("Map"@),
{
    lemma_names();
}

// ---------------------------------------------------------------------------
// Identifiers and white space

/// Whether `s` holds neither parentheses nor commas nor white space, and
/// does not begin as an identifier goes on.
pub open spec fn plain(s: Seq<char>) -> bool {
    forall|i: int|
        0 <= i < s.len() ==> (#[trigger] s[i]) != '(' && s[i] != ')' && s[i] != ','
            && !whitespace(s[i])
}

proof fn lemma_identifier_run(s: Seq<char>, n: int, i: int)
    requires
        0 <= i <= n <= s.len(),
        forall|k: int| 0 <= k < n ==> identifier_char(#[trigger] s[k], k),
        n == s.len() || !identifier_char(s[n], n),
    ensures
        identifier_end(s, i) == n,
    decreases n - i,
{
    if i < n {
        assert(identifier_char(s[i], i));
        lemma_identifier_run(s, n, i + 1);
    }
}

/// A name is the identifier in front of what follows it, if that does not
/// go on as an identifier.
proof fn lemma_eat_name(name: Seq<char>, rest: Seq<char>)
    requires
        name_ok(name),
        rest.len() == 0 || rest[0] == '(',
    ensures
        spec_eat_identifier(name + rest) == (name, rest),
{
    let s = name + rest;
    assert forall|k: int| 0 <= k < name.len() implies identifier_char(#[trigger] s[k], k) by {
        assert(s[k] == name[k]);
        assert(ascii_letter(name[k]) || (k > 0 && ascii_digit(name[k])));
    }
    if rest.len() > 0 {
        assert(s[name.len() as int] == rest[0]);
    }
    lemma_identifier_run(s, name.len() as int, 0);
    assert(s.subrange(0, name.len() as int) =~= name);
    assert(s.subrange(name.len() as int, s.len() as int) =~= rest);
}

/// Text that neither begins nor ends with white space is its own trimmed
/// form.
proof fn lemma_trimmed_same(s: Seq<char>)
    requires
        s.len() == 0 || (!whitespace(s[0]) && !whitespace(s.last())),
    ensures
        trimmed(s) == s,
{
    if s.len() > 0 {
        assert(skip_space(s, 0) == 0);
        assert(back_space(s, 0, s.len() as int) == s.len());
        assert(s.subrange(0, s.len() as int) =~= s);
    } else {
        assert(skip_space(s, 0) == 0);
        assert(s.subrange(0, 0) =~= s);
    }
}

// ---------------------------------------------------------------------------
// Parentheses

/// The number of parentheses that the first `k` characters of `s` leave open.
pub open spec fn shape(s: Seq<char>, k: int) -> int
    decreases k,
{
    if k <= 0 {
        0
    } else {
        shape(s, k - 1) + (if s[k - 1] == '(' {
            1int
        } else if s[k - 1] == ')' {
            -1int
        } else {
            0int
        })
    }
}

/// Whether the parentheses of `s` match.
pub open spec fn balanced(s: Seq<char>) -> bool {
    &&& forall|k: int| 0 <= k <= s.len() ==> #[trigger] shape(s, k) >= 0
    &&& shape(s, s.len() as int) == 0
}

/// Whether the parentheses of `s` match and each comma stands inside some.
pub open spec fn closed(s: Seq<char>) -> bool {
    &&& balanced(s)
    &&& forall|k: int| 0 <= k < s.len() && #[trigger] s[k] == ',' ==> shape(s, k) > 0
}

/// Whether `s` can stand as an argument: it is not empty, neither begins
/// nor ends with white space, and is closed.
pub open spec fn argument_ok(s: Seq<char>) -> bool {
    &&& s.len() > 0
    &&& !whitespace(s[0])
    &&& !whitespace(s.last())
    &&& closed(s)
}

proof fn lemma_shape_concat(a: Seq<char>, b: Seq<char>, k: int)
    requires
        0 <= k <= a.len() + b.len(),
    ensures
        shape(a + b, k) == (if k <= a.len() {
            shape(a, k)
        } else {
            shape(a, a.len() as int) + shape(b, k - a.len())
        }),
    decreases k,
{
    if k > 0 {
        lemma_shape_concat(a, b, k - 1);
        assert(shape(b, 0) == 0);
        if k <= a.len() {
            assert((a + b)[k - 1] == a[k - 1]);
        } else {
            assert((a + b)[k - 1] == b[k - 1 - a.len()]);
        }
    }
}

proof fn lemma_plain_shape(s: Seq<char>, k: int)
    requires
        plain(s),
        0 <= k <= s.len(),
    ensures
        shape(s, k) == 0,
    decreases k,
{
    if k > 0 {
        lemma_plain_shape(s, k - 1);
        assert(s[k - 1] != '(' && s[k - 1] != ')');
    }
}

/// Plain text that is not empty can stand as an argument.
proof fn lemma_plain_argument(s: Seq<char>)
    requires
        plain(s),
        s.len() > 0,
    ensures
        argument_ok(s),
{
    assert forall|k: int| 0 <= k <= s.len() implies #[trigger] shape(s, k) >= 0 by {
        lemma_plain_shape(s, k);
    }
    lemma_plain_shape(s, s.len() as int);
    assert(!whitespace(s[0]));
    assert(!whitespace(s[s.len() - 1]));
}

/// A name applied to balanced text is closed.
proof fn lemma_applied_closed(name: Seq<char>, inner: Seq<char>)
    requires
        plain(name),
        name.len() > 0,
        balanced(inner),
    ensures
        argument_ok(applied(name, inner)),
        applied(name, inner).len() == name.len() + inner.len() + 2,
{
    let open = seq!['('];
    let close = seq![')'];
    let s = applied(name, inner);
    let head = name + open;
    let body = head + inner;
    assert(s == body + close);
    assert forall|k: int| 0 <= k <= s.len() implies (#[trigger] shape(s, k)) == (if k
        <= name.len() {
        0int
    } else if k <= name.len() + 1 + inner.len() {
        1 + shape(inner, k - name.len() - 1)
    } else {
        0int
    }) by {
        lemma_shape_concat(body, close, k);
        lemma_shape_concat(body, close, body.len() as int);
        if k <= body.len() {
            lemma_shape_concat(head, inner, k);
        }
        lemma_shape_concat(head, inner, body.len() as int);
        lemma_shape_concat(name, open, head.len() as int);
        if k <= head.len() {
            lemma_shape_concat(name, open, k);
        }
        lemma_plain_shape(name, name.len() as int);
        if k <= name.len() {
            lemma_plain_shape(name, k);
        }
        assert(shape(open, 1) == 1) by {
            assert(shape(open, 0) == 0);
        }
        assert(shape(close, 1) == -1) by {
            assert(shape(close, 0) == 0);
        }
        assert(shape(open, 0) == 0);
        assert(shape(close, 0) == 0);
    }
    assert(shape(s, s.len() as int) == 0);
    assert forall|k: int| 0 <= k <= s.len() implies #[trigger] shape(s, k) >= 0 by {
        if name.len() < k <= name.len() + 1 + inner.len() {
            assert(shape(inner, k - name.len() - 1) >= 0);
        }
    }
    assert forall|k: int| 0 <= k < s.len() && #[trigger] s[k] == ',' implies shape(s, k) > 0 by {
        if k < name.len() {
            assert(s[k] == name[k]);
        } else if k == name.len() {
            assert(s[k] == '(');
        } else if k < name.len() + 1 + inner.len() {
            assert(shape(inner, k - name.len() - 1) >= 0);
        } else {
            assert(s[k] == ')');
        }
    }
    assert(s[0] == name[0]);
    assert(s.last() == ')');
}

// ---------------------------------------------------------------------------
// Argument lists

/// The first `m` of `args` with commas between.
pub open spec fn joined(args: Seq<Seq<char>>, m: nat) -> Seq<char>
    decreases m,
{
    if m == 0 || m > args.len() {
        Seq::empty()
    } else if m == 1 {
        args[0]
    } else {
        joined(args, (m - 1) as nat) + seq![','] + args[m - 1]
    }
}

/// Where argument `i` begins in the joined arguments.
pub open spec fn begin(args: Seq<Seq<char>>, i: nat) -> int {
    if i == 0 {
        0
    } else {
        joined(args, i).len() as int + 1
    }
}

/// Whether each of `args` can stand as an argument.
pub open spec fn arguments_ok(args: Seq<Seq<char>>) -> bool {
    forall|i: int| 0 <= i < args.len() ==> argument_ok(#[trigger] args[i])
}

/// The joined arguments are laid out one after the other: argument `j`
/// stands at its beginning, a comma before it unless it is the first.
proof fn lemma_joined_layout(args: Seq<Seq<char>>, j: nat, m: nat)
    requires
        j < m <= args.len(),
    ensures
        begin(args, j) + args[j as int].len() == joined(args, (j + 1) as nat).len(),
        joined(args, (j + 1) as nat).len() <= joined(args, m).len(),
        joined(args, m).subrange(begin(args, j), begin(args, j) + args[j as int].len())
            == args[j as int],
        j > 0 ==> joined(args, m)[begin(args, j) - 1] == ',',
        joined(args, m).subrange(0, joined(args, (j + 1) as nat).len() as int) == joined(
            args,
            (j + 1) as nat,
        ),
    decreases m,
{
    let whole = joined(args, m);
    let upto = joined(args, (j + 1) as nat);
    if j + 1 == m {
        assert(whole.subrange(0, upto.len() as int) =~= upto);
        if j > 0 {
            let front = joined(args, j);
            assert(whole == front + seq![','] + args[j as int]);
            assert(whole.subrange(begin(args, j), begin(args, j) + args[j as int].len())
                =~= args[j as int]);
            assert(whole[begin(args, j) - 1] == ',');
        } else {
            assert(whole.subrange(0, args[0].len() as int) =~= args[0]);
        }
    } else {
        lemma_joined_layout(args, j, (m - 1) as nat);
        let front = joined(args, (m - 1) as nat);
        assert(whole == front + seq![','] + args[m - 1]);
        assert(whole.subrange(0, upto.len() as int) =~= front.subrange(0, upto.len() as int));
        assert(whole.subrange(begin(args, j), begin(args, j) + args[j as int].len())
            =~= front.subrange(begin(args, j), begin(args, j) + args[j as int].len()));
        if j > 0 {
            assert(whole[begin(args, j) - 1] == front[begin(args, j) - 1]);
        }
    }
}

/// Scanning over a closed run leaves the scan where it was, but for the
/// parentheses open within the run.
proof fn lemma_scan_over(s: Seq<char>, i: int, a: Seq<char>, k: int)
    requires
        0 <= i,
        i + a.len() <= s.len(),
        s.subrange(i, i + a.len()) == a,
        closed(a),
        scan_args(s, i).ok,
        scan_args(s, i).depth == 0,
        0 <= k <= a.len(),
    ensures
        scan_args(s, i + k) == (ArgScan { depth: shape(a, k) as nat, ..scan_args(s, i) }),
        shape(a, k) >= 0,
    decreases k,
{
    if k > 0 {
        lemma_scan_over(s, i, a, k - 1);
        assert(a[k - 1] == s[i + k - 1]);
        assert(shape(a, k) >= 0);
        assert(shape(a, k - 1) >= 0);
        if a[k - 1] == ',' {
            assert(shape(a, k - 1) > 0);
        }
    } else {
        assert(shape(a, 0) == 0);
    }
}

/// The scan of joined arguments after argument `j`: the arguments before it
/// are complete, and it is under way.
proof fn lemma_scan_joined(args: Seq<Seq<char>>, j: nat)
    requires
        arguments_ok(args),
        j < args.len(),
    ensures
        scan_args(
            joined(args, args.len()),
            joined(args, (j + 1) as nat).len() as int,
        ) == (ArgScan {
            ok: true,
            depth: 0,
            start: begin(args, j),
            args: args.take(j as int),
        }),
    decreases j,
{
    let m = args.len();
    let whole = joined(args, m);
    let a = args[j as int];
    assert(argument_ok(a));
    lemma_joined_layout(args, j, m);
    if j == 0 {
        assert(scan_args(whole, 0) == scan_start());
        lemma_scan_over(whole, 0, a, a.len() as int);
        assert(args.take(0) =~= Seq::<Seq<char>>::empty());
    } else {
        lemma_scan_joined(args, (j - 1) as nat);
        lemma_joined_layout(args, (j - 1) as nat, m);
        let at = joined(args, j).len() as int;
        let before = scan_args(whole, at);
        let previous = args[j - 1];
        assert(argument_ok(previous));
        assert(whole[at] == ',');
        assert(whole.subrange(before.start, at) == previous);
        lemma_trimmed_same(previous);
        assert(scan_args(whole, at + 1) == scan_step(whole, before, at));
        assert(args.take(j - 1).push(previous) =~= args.take(j as int));
        lemma_scan_over(whole, at + 1, a, a.len() as int);
    }
}

/// A parenthesised list of arguments is cut into its arguments.
pub proof fn lemma_parse_joined(args: Seq<Seq<char>>)
    requires
        arguments_ok(args),
    ensures
        spec_parse_args(seq!['('] + joined(args, args.len()) + seq![')']) == Some(args),
{
    let m = args.len();
    let whole = joined(args, m);
    let input = seq!['('] + whole + seq![')'];
    assert(input.subrange(1, input.len() - 1) =~= whole);
    assert(input[0] == '(');
    assert(input.last() == ')');
    if m == 0 {
        lemma_trimmed_same(whole);
        assert(scan_args(whole, 0) == scan_start());
        assert(args =~= Seq::<Seq<char>>::empty());
    } else {
        let last = (m - 1) as nat;
        lemma_joined_layout(args, last, m);
        lemma_joined_layout(args, 0, m);
        assert(argument_ok(args[0]));
        assert(argument_ok(args[last as int]));
        assert(whole[0] == args[0][0]) by {
            assert(whole.subrange(0, args[0].len() as int)[0] == whole[0]);
        }
        assert(whole.last() == args[last as int].last()) by {
            let a = args[last as int];
            assert(whole.subrange(begin(args, last), begin(args, last) + a.len())[a.len() - 1]
                == whole[begin(args, last) + a.len() - 1]);
        }
        lemma_trimmed_same(whole);
        lemma_scan_joined(args, last);
        lemma_trimmed_same(args[last as int]);
        assert(whole.subrange(begin(args, last), whole.len() as int) == args[last as int]);
        assert(args.take(last as int).push(args[last as int]) =~= args);
    }
}

/// Joined arguments whose parentheses match have parentheses that match.
proof fn lemma_joined_balanced(args: Seq<Seq<char>>, m: nat)
    requires
        arguments_ok(args),
        m <= args.len(),
    ensures
        balanced(joined(args, m)),
        m > 0 ==> joined(args, m).len() >= args[m - 1].len(),
    decreases m,
{
    let whole = joined(args, m);
    if m == 0 {
        assert(shape(whole, 0) == 0);
    } else if m == 1 {
        assert(argument_ok(args[0]));
    } else {
        lemma_joined_balanced(args, (m - 1) as nat);
        let front = joined(args, (m - 1) as nat);
        let comma = seq![','];
        let a = args[m - 1];
        assert(argument_ok(a));
        let head = front + comma;
        assert(whole == head + a);
        assert(shape(comma, 0) == 0);
        assert(shape(comma, 1) == 0);
        assert forall|k: int| 0 <= k <= whole.len() implies #[trigger] shape(whole, k) >= 0 by {
            lemma_shape_concat(head, a, k);
            lemma_shape_concat(front, comma, head.len() as int);
            if k <= head.len() {
                lemma_shape_concat(front, comma, k);
                if k <= front.len() {
                    assert(shape(front, k) >= 0);
                }
            } else {
                assert(shape(a, k - head.len()) >= 0);
            }
        }
        lemma_shape_concat(head, a, whole.len() as int);
        lemma_shape_concat(front, comma, head.len() as int);
    }
}

// ---------------------------------------------------------------------------
// Texts of types

/// The types whose text can be read: those that hold no enumeration.
pub open spec fn printable(t: SpecType) -> bool
    decreases t,
{
    match t {
        SpecType::Enum8(_) => false,
        SpecType::Enum16(_) => false,
        SpecType::LowCardinality(x) => printable(*x),
        SpecType::Array(x) => printable(*x),
        SpecType::Nullable(x) => printable(*x),
        SpecType::Tuple(ts) => forall|i: int| 0 <= i < ts.len() ==> printable(#[trigger] ts[i]),
        SpecType::Mapping(k, v) => printable(*k) && printable(*v),
        _ => true,
    }
}

/// The texts of a sequence of types, one for one.
pub open spec fn texts(ts: Seq<SpecType>) -> Seq<Seq<char>> {
    Seq::new(ts.len(), |i: int| type_text(ts[i]))
}

/// A zone's name between single quotes.
pub open spec fn quote(tz: Seq<char>) -> Seq<char> {
    seq!['\''] + tz + seq!['\'']
}

proof fn lemma_types_text(ts: Seq<SpecType>, m: nat)
    requires
        m <= ts.len(),
    ensures
        types_text(ts, m) == joined(texts(ts), m),
    decreases m,
{
    if m > 1 {
        lemma_types_text(ts, (m - 1) as nat);
    }
}

proof fn lemma_name_plain(name: Seq<char>)
    requires
        name_ok(name),
    ensures
        plain(name),
        argument_ok(name),
{
    assert forall|i: int| 0 <= i < name.len() implies (#[trigger] name[i]) != '(' && name[i] != ')'
        && name[i] != ',' && !whitespace(name[i]) by {
        assert(ascii_letter(name[i]) || (i > 0 && ascii_digit(name[i])));
    }
    lemma_plain_argument(name);
}

/// A bare name is read as the name of a type without arguments.
proof fn lemma_parse_name(name: Seq<char>)
    requires
        name_ok(name),
    ensures
        spec_from_str(name) == spec_parse_plain(name),
        argument_ok(name),
{
    let none = Seq::<char>::empty();
    assert(name + none =~= name);
    lemma_eat_name(name, none);
    lemma_trimmed_same(none);
    lemma_name_plain(name);
}

/// A name applied to arguments is read as that constructor of those
/// arguments.
proof fn lemma_parse_applied(name: Seq<char>, args: Seq<Seq<char>>)
    requires
        name_ok(name),
        arguments_ok(args),
    ensures
        spec_from_str(applied(name, joined(args, args.len()))) == spec_parse_applied(
            name,
            args,
            applied(name, joined(args, args.len())).len(),
        ),
        argument_ok(applied(name, joined(args, args.len()))),
        forall|i: int|
            0 <= i < args.len() ==> (#[trigger] args[i]).len() < applied(
                name,
                joined(args, args.len()),
            ).len(),
{
    let inner = joined(args, args.len());
    let s = applied(name, inner);
    let rest = seq!['('] + inner + seq![')'];
    assert(s =~= name + rest);
    lemma_eat_name(name, rest);
    assert(rest[0] == '(');
    assert(rest.last() == ')');
    lemma_trimmed_same(rest);
    lemma_parse_joined(args);
    lemma_name_plain(name);
    lemma_joined_balanced(args, args.len());
    lemma_applied_closed(name, inner);
    assert forall|i: int| 0 <= i < args.len() implies (#[trigger] args[i]).len() < s.len() by {
        lemma_joined_layout(args, i as nat, args.len());
    }
}

proof fn lemma_number_argument(n: usize)
    ensures
        argument_ok(decimal_text(n as nat)),
        arguments_ok(seq![decimal_text(n as nat)]),
        spec_parse_usize(decimal_text(n as nat)) == Some(n),
{
    let text = decimal_text(n as nat);
    crate::text::lemma_decimal_text_digits(n as nat);
    lemma_parse_decimal_text(n);
    assert forall|i: int| 0 <= i < text.len() implies (#[trigger] text[i]) != '(' && text[i] != ')'
        && text[i] != ',' && !whitespace(text[i]) by {
        assert(ascii_digit(text[i]));
    }
    lemma_plain_argument(text);
}

proof fn lemma_zone_argument(tz: Seq<char>)
    requires
        tz_name_valid(tz),
    ensures
        argument_ok(quote(tz)),
        spec_parse_zone(quote(tz)) == Some(tz),
{
    let q = quote(tz);
    assert(q.subrange(1, q.len() - 1) =~= tz);
    assert(q[0] == '\'');
    assert(q.last() == '\'');
    assert forall|i: int| 0 <= i < q.len() implies (#[trigger] q[i]) != '(' && q[i] != ')' && q[i]
        != ',' && !whitespace(q[i]) by {
        if 0 < i < q.len() - 1 {
            assert(q[i] == tz[i - 1]);
            if tz == utc_name() {
            } else {
                assert(tz_name_char(tz[i - 1]));
            }
        }
    }
    lemma_plain_argument(q);
}

/// Texts that are read as their types are read as their types one after the
/// other.
proof fn lemma_parse_each(ts: Seq<SpecType>, m: nat, bound: nat)
    requires
        m <= ts.len(),
        forall|i: int|
            0 <= i < ts.len() ==> spec_from_str(type_text(#[trigger] ts[i])) == Ok::<
                SpecType,
                ErrorKind,
            >(ts[i]) && type_text(ts[i]).len() < bound,
    ensures
        spec_parse_each(texts(ts).take(m as int), bound) == Ok::<Seq<SpecType>, ErrorKind>(
            ts.take(m as int),
        ),
    decreases m,
{
    let args = texts(ts).take(m as int);
    if m > 0 {
        lemma_parse_each(ts, (m - 1) as nat, bound);
        assert(args.drop_last() =~= texts(ts).take(m - 1));
        assert(args.last() == type_text(ts[m - 1]));
        assert(ts.take(m - 1).push(ts[m - 1]) =~= ts.take(m as int));
    } else {
        assert(ts.take(0) =~= Seq::<SpecType>::empty());
    }
}

/// The types that are written as a bare name.
pub open spec fn is_bare(t: SpecType) -> bool {
    match t {
        SpecType::Int8
        | SpecType::Int16
        | SpecType::Int32
        | SpecType::Int64
        | SpecType::Int128
        | SpecType::Int256
        | SpecType::UInt8
        | SpecType::UInt16
        | SpecType::UInt32
        | SpecType::UInt64
        | SpecType::UInt128
        | SpecType::UInt256
        | SpecType::Float32
        | SpecType::Float64
        | SpecType::String
        | SpecType::Uuid
        | SpecType::Date
        | SpecType::Ipv4
        | SpecType::Ipv6 => true,
        _ => false,
    }
}

/// The types that are written as a name applied to one number.
pub open spec fn is_scaled(t: SpecType) -> bool {
    t is Decimal32 || t is Decimal64 || t is Decimal128 || t is Decimal256 || t is FixedString
}

#[verifier::rlimit(50)]
proof fn lemma_bare_round_trip(t: SpecType)
    requires
        is_bare(t),
    ensures
        spec_from_str(type_text(t)) == Ok::<SpecType, ErrorKind>(t),
        argument_ok(type_text(t)),
{
    lemma_marks();
    lemma_names_ok();
    match t {
        SpecType::Int8 => lemma_parse_name("Int8"@),
        SpecType::Int16 => lemma_parse_name("Int16"@),
        SpecType::Int32 => lemma_parse_name("Int32"@),
        SpecType::Int64 => lemma_parse_name("Int64"@),
        SpecType::Int128 => lemma_parse_name("Int128"@),
        SpecType::Int256 => lemma_parse_name("Int256"@),
        SpecType::UInt8 => lemma_parse_name("UInt8"@),
        SpecType::UInt16 => lemma_parse_name("UInt16"@),
        SpecType::UInt32 => lemma_parse_name("UInt32"@),
        SpecType::UInt64 => lemma_parse_name("UInt64"@),
        SpecType::UInt128 => lemma_parse_name("UInt128"@),
        SpecType::UInt256 => lemma_parse_name("UInt256"@),
        SpecType::Float32 => lemma_parse_name("Float32"@),
        SpecType::Float64 => lemma_parse_name("Float64"@),
        SpecType::String => lemma_parse_name("String"@),
        SpecType::Uuid => lemma_parse_name("UUID"@),
        SpecType::Date => lemma_parse_name("Date"@),
        SpecType::Ipv4 => lemma_parse_name("IPv4"@),
        SpecType::Ipv6 => lemma_parse_name("IPv6"@),
        _ => {},
    }
}

#[verifier::rlimit(50)]
proof fn lemma_scaled_round_trip(t: SpecType)
    requires
        is_scaled(t),
    ensures
        spec_from_str(type_text(t)) == Ok::<SpecType, ErrorKind>(t),
        argument_ok(type_text(t)),
{
    lemma_marks();
    lemma_names_ok();
    match t {
        SpecType::Decimal32(n) => {
            lemma_number_argument(n);
            let args = seq![decimal_text(n as nat)];
            assert(joined(args, 1) == decimal_text(n as nat));
            lemma_parse_applied("Decimal32"@, args);
        },
        SpecType::Decimal64(n) => {
            lemma_number_argument(n);
            let args = seq![decimal_text(n as nat)];
            assert(joined(args, 1) == decimal_text(n as nat));
            lemma_parse_applied("Decimal64"@, args);
        },
        SpecType::Decimal128(n) => {
            lemma_number_argument(n);
            let args = seq![decimal_text(n as nat)];
            assert(joined(args, 1) == decimal_text(n as nat));
            lemma_parse_applied("Decimal128"@, args);
        },
        SpecType::Decimal256(n) => {
            lemma_number_argument(n);
            let args = seq![decimal_text(n as nat)];
            assert(joined(args, 1) == decimal_text(n as nat));
            lemma_parse_applied("Decimal256"@, args);
        },
        SpecType::FixedString(n) => {
            lemma_number_argument(n);
            let args = seq![decimal_text(n as nat)];
            assert(joined(args, 1) == decimal_text(n as nat));
            lemma_parse_applied("FixedString"@, args);
        },
        _ => {},
    }
}

#[verifier::rlimit(50)]
proof fn lemma_time_round_trip(t: SpecType)
    requires
        t is DateTime || t is DateTime64,
        t.wf(),
    ensures
        spec_from_str(type_text(t)) == Ok::<SpecType, ErrorKind>(t),
        argument_ok(type_text(t)),
{
    lemma_marks();
    lemma_names_ok();
    match t {
        SpecType::DateTime(tz) => {
            lemma_zone_argument(tz);
            let args = seq![quote(tz)];
            assert(joined(args, 1) == quote(tz));
            lemma_parse_applied("DateTime"@, args);
        },
        SpecType::DateTime64(p, tz) => {
            lemma_zone_argument(tz);
            lemma_number_argument(p);
            let args = seq![decimal_text(p as nat), quote(tz)];
            assert(joined(args, 1) == decimal_text(p as nat));
            assert(joined(args, 2) =~= decimal_text(p as nat) + seq![',', '\''] + tz + seq!['\'']);
            lemma_parse_applied("DateTime64"@, args);
        },
        _ => {},
    }
}

/// What the constructors of types make of their arguments, once those are
/// read.
#[verifier::rlimit(50)]
proof fn lemma_applied_containers(args: Seq<Seq<char>>, bound: nat)
    ensures
        spec_parse_applied("LowCardinality"@, args, bound) == (match spec_parse_one(args, bound) {
            Ok(t) => Ok::<SpecType, ErrorKind>(SpecType::LowCardinality(Box::new(t))),
            Err(e) => Err(e),
        }),
        spec_parse_applied("Array"@, args, bound) == (match spec_parse_one(args, bound) {
            Ok(t) => Ok::<SpecType, ErrorKind>(SpecType::Array(Box::new(t))),
            Err(e) => Err(e),
        }),
        spec_parse_applied("Nullable"@, args, bound) == (match spec_parse_one(args, bound) {
            Ok(t) => Ok::<SpecType, ErrorKind>(SpecType::Nullable(Box::new(t))),
            Err(e) => Err(e),
        }),
        spec_parse_applied("Tuple"@, args, bound) == (match spec_parse_each(args, bound) {
            Ok(ts) => Ok::<SpecType, ErrorKind>(SpecType::Tuple(ts)),
            Err(e) => Err(e),
        }),
        args.len() == 2 ==> spec_parse_applied("Map"@, args, bound) == (match spec_parse_each(
            args,
            bound,
        ) {
            Ok(ts) => Ok::<SpecType, ErrorKind>(
                SpecType::Mapping(Box::new(ts[0]), Box::new(ts[1])),
            ),
            Err(e) => Err(e),
        }),
        name_ok("LowCardinality"@),
        name_ok("Array"@),
        name_ok("Nullable"@),
        name_ok("Tuple"@),
        name_ok("Map"@),
{
    lemma_marks();
    lemma_names_ok();
}

/// Whether the text of `t` is read as `t` and can stand as an argument.
pub open spec fn reads_as_itself(t: SpecType) -> bool {
    spec_from_str(type_text(t)) == Ok::<SpecType, ErrorKind>(t) && argument_ok(type_text(t))
}

#[verifier::rlimit(50)]
proof fn lemma_low_cardinality_text(x: SpecType)
    requires
        reads_as_itself(x),
    ensures
        reads_as_itself(SpecType::LowCardinality(Box::new(x))),
{
    let t = SpecType::LowCardinality(Box::new(x));
    lemma_applied_containers(seq![type_text(x)], type_text(t).len());
    lemma_single(x, "LowCardinality"@);
}

#[verifier::rlimit(50)]
proof fn lemma_array_text(x: SpecType)
    requires
        reads_as_itself(x),
    ensures
        reads_as_itself(SpecType::Array(Box::new(x))),
{
    let t = SpecType::Array(Box::new(x));
    lemma_applied_containers(seq![type_text(x)], type_text(t).len());
    lemma_single(x, "Array"@);
}

#[verifier::rlimit(50)]
proof fn lemma_nullable_text(x: SpecType)
    requires
        reads_as_itself(x),
    ensures
        reads_as_itself(SpecType::Nullable(Box::new(x))),
{
    let t = SpecType::Nullable(Box::new(x));
    lemma_applied_containers(seq![type_text(x)], type_text(t).len());
    lemma_single(x, "Nullable"@);
}

#[verifier::rlimit(50)]
proof fn lemma_tuple_text(ts: Seq<SpecType>)
    requires
        forall|i: int| 0 <= i < ts.len() ==> reads_as_itself(#[trigger] ts[i]),
    ensures
        reads_as_itself(SpecType::Tuple(ts)),
{
    let t = SpecType::Tuple(ts);
    let args = texts(ts);
    assert forall|i: int| 0 <= i < ts.len() implies argument_ok(#[trigger] args[i]) by {
        assert(reads_as_itself(ts[i]));
    }
    lemma_types_text(ts, ts.len());
    lemma_applied_containers(args, type_text(t).len());
    lemma_parse_applied("Tuple"@, args);
    let bound = type_text(t).len();
    assert forall|i: int| 0 <= i < ts.len() implies spec_from_str(type_text(#[trigger] ts[i]))
        == Ok::<SpecType, ErrorKind>(ts[i]) && type_text(ts[i]).len() < bound by {
        assert(reads_as_itself(ts[i]));
        assert(args[i].len() < bound);
    }
    lemma_parse_each(ts, ts.len(), bound);
    assert(args.take(ts.len() as int) =~= args);
    assert(ts.take(ts.len() as int) =~= ts);
}

#[verifier::rlimit(50)]
proof fn lemma_map_text(k: SpecType, v: SpecType)
    requires
        reads_as_itself(k),
        reads_as_itself(v),
    ensures
        reads_as_itself(SpecType::Mapping(Box::new(k), Box::new(v))),
{
    let t = SpecType::Mapping(Box::new(k), Box::new(v));
    let ts = seq![k, v];
    let args = texts(ts);
    assert(args =~= seq![type_text(k), type_text(v)]);
    assert(joined(args, 1) == type_text(k));
    assert(joined(args, 2) =~= type_text(k) + seq![','] + type_text(v));
    lemma_applied_containers(args, type_text(t).len());
    lemma_parse_applied("Map"@, args);
    let bound = type_text(t).len();
    assert forall|i: int| 0 <= i < ts.len() implies spec_from_str(type_text(#[trigger] ts[i]))
        == Ok::<SpecType, ErrorKind>(ts[i]) && type_text(ts[i]).len() < bound by {
        assert(args[i].len() < bound);
    }
    lemma_parse_each(ts, 2, bound);
    assert(args.take(2) =~= args);
    assert(ts.take(2) =~= ts);
}

/// Printing then parsing gives the type back.
///
/// The canonical text of a type that holds no enumeration, and whose zones
/// are zones, is read as that type.
pub proof fn lemma_text_round_trip(t: SpecType)
    requires
        t.wf(),
        printable(t),
    ensures
        spec_from_str(type_text(t)) == Ok::<SpecType, ErrorKind>(t),
        argument_ok(type_text(t)),
    decreases t,
{
    match t {
        SpecType::DateTime(_) => lemma_time_round_trip(t),
        SpecType::DateTime64(_, _) => lemma_time_round_trip(t),
        SpecType::LowCardinality(x) => {
            lemma_text_round_trip(*x);
            lemma_low_cardinality_text(*x);
        },
        SpecType::Array(x) => {
            lemma_text_round_trip(*x);
            lemma_array_text(*x);
        },
        SpecType::Nullable(x) => {
            lemma_text_round_trip(*x);
            lemma_nullable_text(*x);
        },
        SpecType::Tuple(ts) => {
            assert forall|i: int| 0 <= i < ts.len() implies reads_as_itself(#[trigger] ts[i]) by {
                lemma_text_round_trip(ts[i]);
            }
            lemma_tuple_text(ts);
        },
        SpecType::Mapping(k, v) => {
            lemma_text_round_trip(*k);
            lemma_text_round_trip(*v);
            lemma_map_text(*k, *v);
        },
        SpecType::Enum8(_) => {},
        SpecType::Enum16(_) => {},
        _ => {
            if is_scaled(t) {
                lemma_scaled_round_trip(t);
            } else {
                lemma_bare_round_trip(t);
            }
        },
    }
}

/// A constructor of one type is read from its text where the type is.
proof fn lemma_single(x: SpecType, name: Seq<char>)
    requires
        name_ok(name),
        spec_from_str(type_text(x)) == Ok::<SpecType, ErrorKind>(x),
        argument_ok(type_text(x)),
    ensures
        spec_from_str(applied(name, type_text(x))) == spec_parse_applied(
            name,
            seq![type_text(x)],
            applied(name, type_text(x)).len(),
        ),
        spec_parse_one(seq![type_text(x)], applied(name, type_text(x)).len()) == Ok::<
            SpecType,
            ErrorKind,
        >(x),
        argument_ok(applied(name, type_text(x))),
{
    let ts = seq![x];
    let args = texts(ts);
    assert(args =~= seq![type_text(x)]);
    assert(joined(args, 1) == type_text(x));
    lemma_parse_applied(name, args);
    let bound = applied(name, type_text(x)).len();
    assert forall|i: int| 0 <= i < ts.len() implies spec_from_str(type_text(#[trigger] ts[i]))
        == Ok::<SpecType, ErrorKind>(ts[i]) && type_text(ts[i]).len() < bound by {
        assert(args[i].len() < bound);
    }
    lemma_parse_each(ts, 1, bound);
    assert(args.take(1) =~= args);
    assert(ts.take(1) =~= ts);
}

} // verus!
