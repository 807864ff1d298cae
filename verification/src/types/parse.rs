//! Reading types from their canonical text.

use crate::errors::{Error, ErrorKind};
use crate::text::{
    alphabetic, back_space, is_alphabetic, is_numeric, is_whitespace, numeric, parse_usize,
    skip_space, spec_parse_usize, str_chars, str_equal, trim, trimmed,
};
use crate::types::{SpecType, Type};
use crate::tz::{tz_name_valid, utc_name, Tz};
use vstd::prelude::*;

verus! {

// ---------------------------------------------------------------------------
// Identifiers

/// The characters of an identifier: a letter, `_` or `$` anywhere, a digit
/// anywhere but in front.
pub open spec fn identifier_char(c: char, index: int) -> bool {
    alphabetic(c) || c == '_' || c == '$' || (index > 0 && numeric(c))
}

/// The end of the run of identifier characters that begins at `i`.
pub open spec fn identifier_end(s: Seq<char>, i: int) -> int
    decreases s.len() - i,
{
    if 0 <= i < s.len() && identifier_char(s[i], i) {
        identifier_end(s, i + 1)
    } else {
        i
    }
}

/// The leading identifier of `s` and what follows it.
pub open spec fn spec_eat_identifier(s: Seq<char>) -> (Seq<char>, Seq<char>) {
    let n = identifier_end(s, 0);
    (s.subrange(0, n), s.subrange(n, s.len() as int))
}

/// An identifier ends within its text.
pub proof fn lemma_identifier_end_bounds(s: Seq<char>, i: int)
    requires
        0 <= i <= s.len(),
    ensures
        i <= identifier_end(s, i) <= s.len(),
    decreases s.len() - i,
{
    if i < s.len() && identifier_char(s[i], i) {
        lemma_identifier_end_bounds(s, i + 1);
    }
}

fn is_identifier_char(c: char, index: usize) -> (b: bool)
    ensures
        b == identifier_char(c, index as int),
{
    is_alphabetic(c) || c == '_' || c == '$' || (index > 0 && is_numeric(c))
}

/// Splits `input` into its leading identifier and the rest.
pub fn eat_identifier(input: &str) -> (r: (&str, &str))
    ensures
        (r.0@, r.1@) == spec_eat_identifier(input@),
{
    let chars = str_chars(input);
    let mut i: usize = 0;
    while i < chars.len() && is_identifier_char(chars[i], i)
        invariant
            i <= chars.len(),
            identifier_end(chars@, 0) == identifier_end(chars@, i as int),
        decreases chars.len() - i,
    {
        i += 1;
    }
    (input.substring_char(0, i), input.substring_char(i, chars.len()))
}

// ---------------------------------------------------------------------------
// Argument lists

/// The state of a scan over an argument list.
pub struct ArgScan {
    /// Whether no closing parenthesis came without an opening one.
    pub ok: bool,
    /// How many parentheses are open.
    pub depth: nat,
    /// Where the argument under way began.
    pub start: int,
    /// The arguments that are complete.
    pub args: Seq<Seq<char>>,
}

/// The scan before any character.
pub open spec fn scan_start() -> ArgScan {
    ArgScan { ok: true, depth: 0, start: 0, args: Seq::empty() }
}

/// The scan after the character at `i`: a comma outside all parentheses ends
/// the argument under way, parentheses are counted.
pub open spec fn scan_step(s: Seq<char>, st: ArgScan, i: int) -> ArgScan {
    let c = s[i];
    if !st.ok {
        st
    } else if c == ',' {
        if st.depth == 0 {
            ArgScan { start: i + 1, args: st.args.push(trimmed(s.subrange(st.start, i))), ..st }
        } else {
            st
        }
    } else if c == '(' {
        ArgScan { depth: st.depth + 1, ..st }
    } else if c == ')' {
        if st.depth == 0 {
            ArgScan { ok: false, ..st }
        } else {
            ArgScan { depth: (st.depth - 1) as nat, ..st }
        }
    } else {
        st
    }
}

/// The scan after the first `n` characters of `s`.
pub open spec fn scan_args(s: Seq<char>, n: int) -> ArgScan
    decreases n,
{
    if n <= 0 {
        scan_start()
    } else {
        scan_step(s, scan_args(s, n - 1), n - 1)
    }
}

/// The arguments in a parenthesised list: what stands between the outer
/// parentheses, cut at the commas outside inner parentheses, each piece
/// trimmed. A list whose parentheses do not match has none.
pub open spec fn spec_parse_args(input: Seq<char>) -> Option<Seq<Seq<char>>> {
    if input.len() < 2 || input[0] != '(' || input.last() != ')' {
        None
    } else {
        let inner = trimmed(input.subrange(1, input.len() - 1));
        let st = scan_args(inner, inner.len() as int);
        if !st.ok || st.depth != 0 {
            None
        } else if st.start != inner.len() {
            Some(st.args.push(trimmed(inner.subrange(st.start, inner.len() as int))))
        } else {
            Some(st.args)
        }
    }
}

/// The character sequences of a sequence of string slices.
pub open spec fn str_views(v: Seq<&str>) -> Seq<Seq<char>> {
    Seq::new(v.len(), |i: int| v[i]@)
}

/// Trimming makes no text longer.
pub proof fn lemma_trimmed_len(s: Seq<char>)
    ensures
        trimmed(s).len() <= s.len(),
{
    crate::text::lemma_skip_space_bounds(s, 0);
    crate::text::lemma_back_space_bounds(s, skip_space(s, 0), s.len() as int);
}

proof fn lemma_scan_bounds(s: Seq<char>, n: int)
    requires
        0 <= n <= s.len(),
    ensures
        0 <= scan_args(s, n).start <= n,
        forall|k: int|
            0 <= k < scan_args(s, n).args.len() ==> (#[trigger] scan_args(s, n).args[k]).len()
                <= s.len(),
    decreases n,
{
    if n > 0 {
        lemma_scan_bounds(s, n - 1);
        let st = scan_args(s, n - 1);
        lemma_trimmed_len(s.subrange(st.start, n - 1));
    }
}

/// Every argument is shorter than the list it was cut from.
pub proof fn lemma_parse_args_shorter(input: Seq<char>)
    ensures
        spec_parse_args(input) matches Some(args) ==> forall|k: int|
            0 <= k < args.len() ==> (#[trigger] args[k]).len() < input.len(),
{
    if input.len() >= 2 {
        let mid = input.subrange(1, input.len() - 1);
        lemma_trimmed_len(mid);
        let inner = trimmed(mid);
        lemma_scan_bounds(inner, inner.len() as int);
        let st = scan_args(inner, inner.len() as int);
        lemma_trimmed_len(inner.subrange(st.start, inner.len() as int));
    }
}

/// The bounds `(a, b)` of the trimmed part of `chars[lo..hi]`.
fn trim_range(chars: &Vec<char>, lo: usize, hi: usize) -> (r: (usize, usize))
    requires
        lo <= hi <= chars.len(),
    ensures
        lo <= r.0 <= r.1 <= hi,
        chars@.subrange(r.0 as int, r.1 as int) == trimmed(chars@.subrange(lo as int, hi as int)),
{
    let ghost w = chars@.subrange(lo as int, hi as int);
    let mut a: usize = lo;
    while a < hi && is_whitespace(chars[a])
        invariant
            lo <= a <= hi <= chars.len(),
            w == chars@.subrange(lo as int, hi as int),
            skip_space(w, 0) == skip_space(w, a - lo),
        decreases hi - a,
    {
        assert(w[a - lo] == chars[a as int]);
        a += 1;
    }
    assert(a < hi ==> w[a - lo] == chars[a as int]);
    let mut b: usize = hi;
    while b > a && is_whitespace(chars[b - 1])
        invariant
            lo <= a <= b <= hi <= chars.len(),
            w == chars@.subrange(lo as int, hi as int),
            back_space(w, a - lo, hi - lo) == back_space(w, a - lo, b - lo),
        decreases b - a,
    {
        assert(w[b - 1 - lo] == chars[b - 1]);
        b -= 1;
    }
    assert(b > a ==> w[b - 1 - lo] == chars[b - 1]);
    assert(w.subrange(a - lo, b - lo) =~= chars@.subrange(a as int, b as int));
    (a, b)
}

fn bad_type(message: &str) -> (e: Error)
    ensures
        e.kind == ErrorKind::BadType,
        e.message@ == message@,
{
    Error::new(ErrorKind::BadType, message)
}

/// Cuts a parenthesised argument list into its arguments.
pub fn parse_args(input: &str) -> (r: Result<Vec<&str>, Error>)
    ensures
        match spec_parse_args(input@) {
            Some(args) => r matches Ok(v) && str_views(v@) == args,
            None => r matches Err(e) && e.kind == ErrorKind::BadType,
        },
{
    let chars = str_chars(input);
    let n = chars.len();
    if n < 2 || chars[0] != '(' || chars[n - 1] != ')' {
        return Err(bad_type("malformed arguments to type"));
    }
    let (lo, hi) = trim_range(&chars, 1, n - 1);
    let ghost inner = chars@.subrange(lo as int, hi as int);
    let mut out: Vec<&str> = Vec::new();
    let mut in_parens: usize = 0;
    let mut last_start: usize = lo;
    let mut i: usize = lo;
    assert(str_views(out@) =~= Seq::<Seq<char>>::empty());
    while i < hi
        invariant
            lo <= last_start <= i <= hi <= n,
            n == chars.len(),
            chars@ == input@,
            inner == chars@.subrange(lo as int, hi as int),
            inner == trimmed(input@.subrange(1, n - 1)),
            input@.len() >= 2 && input@[0] == '(' && input@.last() == ')',
            in_parens <= i - lo,
            scan_args(inner, i - lo) == (ArgScan {
                ok: true,
                depth: in_parens as nat,
                start: last_start - lo,
                args: str_views(out@),
            }),
        decreases hi - i,
    {
        let c = chars[i];
        assert(inner[i - lo] == c);
        let ghost before = scan_args(inner, i - lo);
        assert(scan_args(inner, i - lo + 1) == scan_step(inner, before, i - lo));
        if c == ',' {
            if in_parens == 0 {
                let (a, b) = trim_range(&chars, last_start, i);
                assert(inner.subrange(last_start - lo, i - lo) =~= chars@.subrange(
                    last_start as int,
                    i as int,
                ));
                let piece = input.substring_char(a, b);
                let ghost old_views = str_views(out@);
                out.push(piece);
                assert(str_views(out@) =~= old_views.push(piece@));
                last_start = i + 1;
            }
        } else if c == '(' {
            in_parens += 1;
        } else if c == ')' {
            if in_parens == 0 {
                proof {
                    lemma_scan_stays_failed(inner, i - lo + 1, hi - lo);
                }
                return Err(bad_type("mismatched parenthesis"));
            }
            in_parens -= 1;
        }
        i += 1;
    }
    if in_parens != 0 {
        return Err(bad_type("mismatched parenthesis"));
    }
    if last_start != hi {
        let (a, b) = trim_range(&chars, last_start, hi);
        assert(inner.subrange(last_start - lo, hi - lo) =~= chars@.subrange(
            last_start as int,
            hi as int,
        ));
        let piece = input.substring_char(a, b);
        let ghost old_views = str_views(out@);
        out.push(piece);
        assert(str_views(out@) =~= old_views.push(piece@));
    }
    Ok(out)
}

/// Once a scan has failed it stays failed.
proof fn lemma_scan_stays_failed(s: Seq<char>, n: int, m: int)
    requires
        0 <= n <= m,
        !scan_args(s, n).ok,
    ensures
        !scan_args(s, m).ok,
    decreases m - n,
{
    if n < m {
        lemma_scan_stays_failed(s, n, m - 1);
    }
}

// ---------------------------------------------------------------------------
// Types

/// Whether `arg` stands between single quotes.
pub open spec fn quoted(arg: Seq<char>) -> bool {
    arg.len() >= 2 && arg[0] == '\'' && arg.last() == '\''
}

/// The time zone written in a quoted argument.
pub open spec fn spec_parse_zone(arg: Seq<char>) -> Option<Seq<char>> {
    if quoted(arg) && tz_name_valid(arg.subrange(1, arg.len() - 1)) {
        Some(arg.subrange(1, arg.len() - 1))
    } else {
        None
    }
}

/// The type named by a bare identifier.
pub open spec fn spec_parse_plain(ident: Seq<char>) -> Result<SpecType, ErrorKind> {
    if ident == "Int8"@ {
        Ok(SpecType::Int8)
    } else if ident == "Int16"@ {
        Ok(SpecType::Int16)
    } else if ident == "Int32"@ {
        Ok(SpecType::Int32)
    } else if ident == "Int64"@ {
        Ok(SpecType::Int64)
    } else if ident == "Int128"@ {
        Ok(SpecType::Int128)
    } else if ident == "Int256"@ {
        Ok(SpecType::Int256)
    } else if ident == "UInt8"@ {
        Ok(SpecType::UInt8)
    } else if ident == "UInt16"@ {
        Ok(SpecType::UInt16)
    } else if ident == "UInt32"@ {
        Ok(SpecType::UInt32)
    } else if ident == "UInt64"@ {
        Ok(SpecType::UInt64)
    } else if ident == "UInt128"@ {
        Ok(SpecType::UInt128)
    } else if ident == "UInt256"@ {
        Ok(SpecType::UInt256)
    } else if ident == "Float32"@ {
        Ok(SpecType::Float32)
    } else if ident == "Float64"@ {
        Ok(SpecType::Float64)
    } else if ident == "String"@ {
        Ok(SpecType::String)
    } else if ident == "UUID"@ {
        Ok(SpecType::Uuid)
    } else if ident == "Date"@ {
        Ok(SpecType::Date)
    } else if ident == "DateTime"@ {
        Ok(SpecType::DateTime(utc_name()))
    } else if ident == "IPv4"@ {
        Ok(SpecType::Ipv4)
    } else if ident == "IPv6"@ {
        Ok(SpecType::Ipv6)
    } else {
        Err(ErrorKind::BadType)
    }
}

/// The decimal type of precision `p` and scale `s`: the narrowest width that
/// holds `p` digits.
pub open spec fn spec_decimal(p: usize, s: usize) -> Result<SpecType, ErrorKind> {
    if p <= 9 {
        Ok(SpecType::Decimal32(s))
    } else if p <= 18 {
        Ok(SpecType::Decimal64(s))
    } else if p <= 38 {
        Ok(SpecType::Decimal128(s))
    } else if p <= 76 {
        Ok(SpecType::Decimal256(s))
    } else {
        Err(ErrorKind::BadType)
    }
}

/// The type named by a constructor whose arguments are numbers and zones.
/// `None` where `ident` is no such constructor.
pub open spec fn spec_parse_scalar(ident: Seq<char>, args: Seq<Seq<char>>) -> Option<
    Result<SpecType, ErrorKind>,
> {
    if ident == "Decimal"@ {
        Some(
            if args.len() != 2 {
                Err(ErrorKind::BadType)
            } else {
                match (spec_parse_usize(args[0]), spec_parse_usize(args[1])) {
                    (Some(p), Some(s)) => spec_decimal(p, s),
                    _ => Err(ErrorKind::BadType),
                }
            },
        )
    } else if ident == "Decimal32"@ {
        Some(spec_parse_scaled(args, |s: usize| SpecType::Decimal32(s)))
    } else if ident == "Decimal64"@ {
        Some(spec_parse_scaled(args, |s: usize| SpecType::Decimal64(s)))
    } else if ident == "Decimal128"@ {
        Some(spec_parse_scaled(args, |s: usize| SpecType::Decimal128(s)))
    } else if ident == "Decimal256"@ {
        Some(spec_parse_scaled(args, |s: usize| SpecType::Decimal256(s)))
    } else if ident == "FixedString"@ {
        Some(spec_parse_scaled(args, |s: usize| SpecType::FixedString(s)))
    } else if ident == "DateTime"@ {
        Some(
            if args.len() != 1 {
                Err(ErrorKind::BadType)
            } else {
                match spec_parse_zone(args[0]) {
                    Some(tz) => Ok(SpecType::DateTime(tz)),
                    None => Err(ErrorKind::BadType),
                }
            },
        )
    } else if ident == "DateTime64"@ {
        Some(
            if args.len() == 2 {
                match (spec_parse_usize(args[0]), spec_parse_zone(args[1])) {
                    (Some(p), Some(tz)) => Ok(SpecType::DateTime64(p, tz)),
                    _ => Err(ErrorKind::BadType),
                }
            } else if args.len() == 1 {
                match spec_parse_usize(args[0]) {
                    Some(p) => Ok(SpecType::DateTime64(p, utc_name())),
                    None => Err(ErrorKind::BadType),
                }
            } else {
                Err(ErrorKind::BadType)
            },
        )
    } else if ident == "Enum8"@ || ident == "Enum16"@ || ident == "Nested"@ {
        Some(Err(ErrorKind::Unsupported))
    } else {
        None
    }
}

/// The type that a constructor with one numeric argument names.
pub open spec fn spec_parse_scaled(
    args: Seq<Seq<char>>,
    make: spec_fn(usize) -> SpecType,
) -> Result<SpecType, ErrorKind> {
    if args.len() != 1 {
        Err(ErrorKind::BadType)
    } else {
        match spec_parse_usize(args[0]) {
            Some(s) => Ok(make(s)),
            None => Err(ErrorKind::BadType),
        }
    }
}

/// The type written in `s`.
///
/// A type is an identifier, optionally followed by a parenthesised list of
/// arguments; white space around the list and around each argument does not
/// count. The first failure decides the error.
pub open spec fn spec_from_str(s: Seq<char>) -> Result<SpecType, ErrorKind>
    decreases s.len(), 2nat, 0nat,
{
    let (ident, rest) = spec_eat_identifier(s);
    if ident.len() == 0 {
        Err(ErrorKind::BadType)
    } else {
        let following = trimmed(rest);
        if following.len() == 0 {
            spec_parse_plain(ident)
        } else {
            match spec_parse_args(following) {
                None => Err(ErrorKind::BadType),
                Some(args) => spec_parse_applied(ident, args, s.len()),
            }
        }
    }
}

/// The type named by a constructor and its arguments. `bound` is the length
/// of the text that the arguments were cut from.
pub open spec fn spec_parse_applied(ident: Seq<char>, args: Seq<Seq<char>>, bound: nat) -> Result<
    SpecType,
    ErrorKind,
>
    decreases bound, 1nat, 0nat,
{
    if spec_parse_scalar(ident, args) is Some {
        spec_parse_scalar(ident, args)->0
    } else if ident == "LowCardinality"@ {
        match spec_parse_one(args, bound) {
            Ok(t) => Ok(SpecType::LowCardinality(Box::new(t))),
            Err(e) => Err(e),
        }
    } else if ident == "Array"@ {
        match spec_parse_one(args, bound) {
            Ok(t) => Ok(SpecType::Array(Box::new(t))),
            Err(e) => Err(e),
        }
    } else if ident == "Nullable"@ {
        match spec_parse_one(args, bound) {
            Ok(t) => Ok(SpecType::Nullable(Box::new(t))),
            Err(e) => Err(e),
        }
    } else if ident == "Tuple"@ {
        match spec_parse_each(args, bound) {
            Ok(ts) => Ok(SpecType::Tuple(ts)),
            Err(e) => Err(e),
        }
    } else if ident == "Map"@ {
        if args.len() != 2 {
            Err(ErrorKind::BadType)
        } else {
            match spec_parse_each(args, bound) {
                Ok(ts) => Ok(SpecType::Mapping(Box::new(ts[0]), Box::new(ts[1]))),
                Err(e) => Err(e),
            }
        }
    } else {
        Err(ErrorKind::BadType)
    }
}

/// The type written in the only argument of a constructor that takes one.
/// `bound` is the length of the text that the arguments were cut from.
pub open spec fn spec_parse_one(args: Seq<Seq<char>>, bound: nat) -> Result<SpecType, ErrorKind>
    decreases bound, 0nat, 2nat,
{
    if args.len() != 1 {
        Err(ErrorKind::BadType)
    } else {
        match spec_parse_each(args, bound) {
            Ok(ts) => Ok(ts[0]),
            Err(e) => Err(e),
        }
    }
}

/// The types written in `args`, in order; the first argument that is no
/// type decides the error. `bound` is the length of the text that the
/// arguments were cut from: each argument is shorter.
pub open spec fn spec_parse_each(args: Seq<Seq<char>>, bound: nat) -> Result<
    Seq<SpecType>,
    ErrorKind,
>
    decreases bound, 0nat, args.len(),
{
    if args.len() == 0 {
        Ok(Seq::empty())
    } else {
        match spec_parse_each(args.drop_last(), bound) {
            Err(e) => Err(e),
            Ok(ts) => if args.last().len() < bound {
                match spec_from_str(args.last()) {
                    Ok(t) => Ok(ts.push(t)),
                    Err(e) => Err(e),
                }
            } else {
                Err(ErrorKind::BadType)
            },
        }
    }
}

/// An error in one argument is the error of the whole list.
proof fn lemma_parse_each_error(args: Seq<Seq<char>>, n: int, bound: nat)
    requires
        0 <= n <= args.len(),
        spec_parse_each(args.take(n), bound) is Err,
    ensures
        spec_parse_each(args, bound) == spec_parse_each(args.take(n), bound),
    decreases args.len() - n,
{
    if n < args.len() {
        assert(args.take(n + 1).drop_last() =~= args.take(n));
        lemma_parse_each_error(args, n + 1, bound);
    } else {
        assert(args.take(n) =~= args);
    }
}

fn parse_zone(arg: &str) -> (r: Option<Tz>)
    ensures
        match spec_parse_zone(arg@) {
            Some(name) => r matches Some(tz) && tz@ == name && tz.wf(),
            None => r is None,
        },
{
    let chars = str_chars(arg);
    let n = chars.len();
    if n < 2 || chars[0] != '\'' || chars[n - 1] != '\'' {
        return None;
    }
    Tz::from_name(arg.substring_char(1, n - 1))
}

/// The types written in `args`, which were cut from `whole`.
fn parse_each(args: &Vec<&str>, whole: &str) -> (r: Result<Vec<Type>, Error>)
    requires
        forall|k: int| 0 <= k < args.len() ==> (#[trigger] args[k])@.len() < whole@.len(),
    ensures
        match spec_parse_each(str_views(args@), whole@.len()) {
            Ok(ts) => r matches Ok(v) && crate::types::type_models(v@) == ts && ts.len()
                == args.len() && forall|k: int| 0 <= k < ts.len() ==> (#[trigger] ts[k]).wf(),
            Err(k) => r matches Err(e) && e.kind == k,
        },
    decreases whole@.len(), 0nat,
{
    let ghost views = str_views(args@);
    let ghost bound = whole@.len();
    let mut out: Vec<Type> = Vec::new();
    let mut i: usize = 0;
    assert(views.take(0) =~= Seq::<Seq<char>>::empty());
    assert(crate::types::type_models(out@) =~= Seq::<SpecType>::empty());
    while i < args.len()
        invariant
            i <= args.len(),
            views == str_views(args@),
            bound == whole@.len(),
            forall|k: int| 0 <= k < args.len() ==> (#[trigger] args[k])@.len() < whole@.len(),
            out.len() == i,
            spec_parse_each(views.take(i as int), bound) == Ok::<Seq<SpecType>, ErrorKind>(
                crate::types::type_models(out@),
            ),
            forall|k: int| 0 <= k < i ==> (#[trigger] out[k])@.wf(),
        decreases args.len() - i,
    {
        let ghost done = crate::types::type_models(out@);
        assert(views.take(i + 1).drop_last() =~= views.take(i as int));
        assert(views.take(i + 1).last() == args[i as int]@);
        match Type::from_str(args[i]) {
            Ok(t) => {
                out.push(t);
                assert(crate::types::type_models(out@) =~= done.push(t@));
            },
            Err(e) => {
                proof {
                    lemma_parse_each_error(views, i + 1, bound);
                }
                return Err(e);
            },
        }
        i += 1;
    }
    assert(views.take(args.len() as int) =~= views);
    Ok(out)
}

fn parse_scaled(args: &Vec<&str>) -> (r: Result<usize, Error>)
    ensures
        match r {
            Ok(n) => args.len() == 1 && spec_parse_usize(args[0]@) == Some(n),
            Err(e) => e.kind == ErrorKind::BadType && (args.len() != 1 || spec_parse_usize(
                args[0]@,
            ) is None),
        },
{
    if args.len() != 1 {
        return Err(bad_type("bad argument count"));
    }
    match parse_usize(args[0]) {
        Some(n) => Ok(n),
        None => Err(bad_type("bad number")),
    }
}

/// The type named by a constructor whose arguments are numbers and zones.
fn parse_scalar(ident: &str, args: &Vec<&str>) -> (r: Option<Result<Type, Error>>)
    ensures
        match spec_parse_scalar(ident@, str_views(args@)) {
            None => r is None,
            Some(Ok(t)) => r matches Some(Ok(v)) && v@ == t && t.wf(),
            Some(Err(k)) => r matches Some(Err(e)) && e.kind == k,
        },
{
    let ghost views = str_views(args@);
    assert(forall|k: int| 0 <= k < args.len() ==> views[k] == args[k]@);
    if str_equal(ident, "Decimal") {
        if args.len() != 2 {
            return Some(Err(bad_type("bad arg count for Decimal")));
        }
        let p = match parse_usize(args[0]) {
            Some(p) => p,
            None => { return Some(Err(bad_type("bad precision for Decimal"))); },
        };
        let s = match parse_usize(args[1]) {
            Some(s) => s,
            None => { return Some(Err(bad_type("bad scale for Decimal"))); },
        };
        if p <= 9 {
            Some(Ok(Type::Decimal32(s)))
        } else if p <= 18 {
            Some(Ok(Type::Decimal64(s)))
        } else if p <= 38 {
            Some(Ok(Type::Decimal128(s)))
        } else if p <= 76 {
            Some(Ok(Type::Decimal256(s)))
        } else {
            Some(Err(bad_type("bad decimal spec")))
        }
    } else if str_equal(ident, "Decimal32") {
        match parse_scaled(args) {
            Ok(n) => Some(Ok(Type::Decimal32(n))),
            Err(e) => Some(Err(e)),
        }
    } else if str_equal(ident, "Decimal64") {
        match parse_scaled(args) {
            Ok(n) => Some(Ok(Type::Decimal64(n))),
            Err(e) => Some(Err(e)),
        }
    } else if str_equal(ident, "Decimal128") {
        match parse_scaled(args) {
            Ok(n) => Some(Ok(Type::Decimal128(n))),
            Err(e) => Some(Err(e)),
        }
    } else if str_equal(ident, "Decimal256") {
        match parse_scaled(args) {
            Ok(n) => Some(Ok(Type::Decimal256(n))),
            Err(e) => Some(Err(e)),
        }
    } else if str_equal(ident, "FixedString") {
        match parse_scaled(args) {
            Ok(n) => Some(Ok(Type::FixedString(n))),
            Err(e) => Some(Err(e)),
        }
    } else if str_equal(ident, "DateTime") {
        if args.len() != 1 {
            return Some(Err(bad_type("bad arg count for DateTime")));
        }
        match parse_zone(args[0]) {
            Some(tz) => Some(Ok(Type::DateTime(tz))),
            None => Some(Err(bad_type("failed to parse timezone for DateTime"))),
        }
    } else if str_equal(ident, "DateTime64") {
        if args.len() == 2 {
            let tz = match parse_zone(args[1]) {
                Some(tz) => tz,
                None => {
                    return Some(Err(bad_type("failed to parse timezone for DateTime64")));
                },
            };
            match parse_usize(args[0]) {
                Some(p) => Some(Ok(Type::DateTime64(p, tz))),
                None => Some(Err(bad_type("bad precision for DateTime64"))),
            }
        } else if args.len() == 1 {
            match parse_usize(args[0]) {
                Some(p) => Some(Ok(Type::DateTime64(p, Tz::utc()))),
                None => Some(Err(bad_type("bad precision for DateTime64"))),
            }
        } else {
            Some(Err(bad_type("bad arg count for DateTime64")))
        }
    } else if str_equal(ident, "Enum8") || str_equal(ident, "Enum16") || str_equal(
        ident,
        "Nested",
    ) {
        Some(Err(Error::new(ErrorKind::Unsupported, "the textual form of this type is not read")))
    } else {
        None
    }
}

/// The type named by a bare identifier.
fn parse_plain(ident: &str) -> (r: Result<Type, Error>)
    ensures
        match spec_parse_plain(ident@) {
            Ok(t) => r matches Ok(v) && v@ == t && t.wf(),
            Err(k) => r matches Err(e) && e.kind == k,
        },
{
    if str_equal(ident, "Int8") {
        Ok(Type::Int8)
    } else if str_equal(ident, "Int16") {
        Ok(Type::Int16)
    } else if str_equal(ident, "Int32") {
        Ok(Type::Int32)
    } else if str_equal(ident, "Int64") {
        Ok(Type::Int64)
    } else if str_equal(ident, "Int128") {
        Ok(Type::Int128)
    } else if str_equal(ident, "Int256") {
        Ok(Type::Int256)
    } else if str_equal(ident, "UInt8") {
        Ok(Type::UInt8)
    } else if str_equal(ident, "UInt16") {
        Ok(Type::UInt16)
    } else if str_equal(ident, "UInt32") {
        Ok(Type::UInt32)
    } else if str_equal(ident, "UInt64") {
        Ok(Type::UInt64)
    } else if str_equal(ident, "UInt128") {
        Ok(Type::UInt128)
    } else if str_equal(ident, "UInt256") {
        Ok(Type::UInt256)
    } else if str_equal(ident, "Float32") {
        Ok(Type::Float32)
    } else if str_equal(ident, "Float64") {
        Ok(Type::Float64)
    } else if str_equal(ident, "String") {
        Ok(Type::String)
    } else if str_equal(ident, "UUID") {
        Ok(Type::Uuid)
    } else if str_equal(ident, "Date") {
        Ok(Type::Date)
    } else if str_equal(ident, "DateTime") {
        Ok(Type::DateTime(Tz::utc()))
    } else if str_equal(ident, "IPv4") {
        Ok(Type::Ipv4)
    } else if str_equal(ident, "IPv6") {
        Ok(Type::Ipv6)
    } else {
        Err(bad_type("invalid type name"))
    }
}

/// The only member of a parsed argument list of length one.
fn only(mut types: Vec<Type>) -> (t: Type)
    requires
        types.len() == 1,
    ensures
        t == types[0],
{
    match types.pop() {
        Some(t) => t,
        None => vstd::pervasive::unreached(),
    }
}

impl Type {
    /// Reads a type from its canonical text.
    ///
    /// Succeeds exactly on the texts that `spec_from_str` gives a type, with
    /// that type; fails otherwise with the error class that it gives.
    pub fn from_str(s: &str) -> (r: Result<Type, Error>)
        ensures
            match spec_from_str(s@) {
                Ok(t) => r matches Ok(v) && v@ == t && v.wf(),
                Err(k) => r matches Err(e) && e.kind == k,
            },
        decreases s@.len(), 1nat,
    {
        let (ident, following) = eat_identifier(s);
        if ident.unicode_len() == 0 {
            return Err(bad_type("invalid empty identifier for type"));
        }
        proof {
            lemma_identifier_end_bounds(s@, 0);
            lemma_trimmed_len(following@);
        }
        let following = trim(following);
        if following.unicode_len() == 0 {
            return parse_plain(ident);
        }
        let args = match parse_args(following) {
            Ok(args) => args,
            Err(e) => { return Err(e); },
        };
        let ghost views = str_views(args@);
        proof {
            lemma_parse_args_shorter(following@);
            assert forall|k: int| 0 <= k < args.len() implies (#[trigger] args[k])@.len()
                < s@.len() by {
                assert(views[k] == args[k]@);
            }
        }
        match parse_scalar(ident, &args) {
            Some(r) => { return r; },
            None => {},
        }
        if str_equal(ident, "LowCardinality") {
            if args.len() != 1 {
                return Err(bad_type("bad arg count for LowCardinality"));
            }
            match parse_each(&args, s) {
                Ok(ts) => Ok(Type::LowCardinality(Box::new(only(ts)))),
                Err(e) => Err(e),
            }
        } else if str_equal(ident, "Array") {
            if args.len() != 1 {
                return Err(bad_type("bad arg count for Array"));
            }
            match parse_each(&args, s) {
                Ok(ts) => Ok(Type::Array(Box::new(only(ts)))),
                Err(e) => Err(e),
            }
        } else if str_equal(ident, "Nullable") {
            if args.len() != 1 {
                return Err(bad_type("bad arg count for Nullable"));
            }
            match parse_each(&args, s) {
                Ok(ts) => Ok(Type::Nullable(Box::new(only(ts)))),
                Err(e) => Err(e),
            }
        } else if str_equal(ident, "Tuple") {
            match parse_each(&args, s) {
                Ok(ts) => {
                    proof {
                        crate::types::lemma_tuple_model(ts);
                    }
                    Ok(Type::Tuple(ts))
                },
                Err(e) => Err(e),
            }
        } else if str_equal(ident, "Map") {
            if args.len() != 2 {
                return Err(bad_type("bad arg count for Map"));
            }
            match parse_each(&args, s) {
                Ok(ts) => {
                    let mut ts = ts;
                    let ghost both = ts@;
                    let value = ts.pop();
                    let key = ts.pop();
                    match (key, value) {
                        (Some(k), Some(v)) => {
                            assert(k == both[0] && v == both[1]);
                            Ok(Type::Mapping(Box::new(k), Box::new(v)))
                        },
                        _ => Err(bad_type("bad arg count for Map")),
                    }
                },
                Err(e) => Err(e),
            }
        } else {
            Err(bad_type("invalid type with arguments"))
        }
    }
}

impl core::str::FromStr for Type {
    type Err = Error;

    /// Reads a type from its canonical text, as [`Type::from_str`] does.
    fn from_str(s: &str) -> (r: Result<Type, Error>)
        ensures
            match spec_from_str(s@) {
                Ok(t) => r matches Ok(v) && v@ == t && v.wf(),
                Err(k) => r matches Err(e) && e.kind == k,
            },
    {
        Type::from_str(s)
    }
}

} // verus!
