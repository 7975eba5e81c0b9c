//! Text layer of the wire protocol: a canonical JSON object codec over
//! character sequences.
//!
//! Every frame the server emits is a JSON object with a fixed, known key
//! sequence whose values are strings or integers. The encoder below produces
//! that canonical text; the decoder accepts exactly the canonical text (a
//! malformed frame is dropped by the caller, never fatal). Both directions
//! are specified by spec functions over `Seq<char>`, and the decoder is
//! proved to invert the encoder.

use vstd::prelude::*;

verus! {

use vstd::string::StrSliceExecFns;
use vstd::string::StringExecFns;

/// A JSON scalar as the protocol uses it: a string or a signed integer.
pub enum JsonAtom {
    S(String),
    I(i64),
}

/// Spec-level counterpart of `JsonAtom`.
pub enum AtomModel {
    S(Seq<char>),
    I(int),
}

impl View for JsonAtom {
    type V = AtomModel;

    open spec fn view(&self) -> AtomModel {
        match self {
            JsonAtom::S(s) => AtomModel::S(s@),
            JsonAtom::I(i) => AtomModel::I(*i as int),
        }
    }
}

/// Decoded integers are kept below this many digits so that every accepted
/// value fits in an `i64`/`u64` without overflow.
pub open spec fn max_int_digits() -> int {
    18
}

/// Largest value a `u32` protocol field may carry.
pub open spec fn cfg_u32_max() -> int {
    4294967295
}

pub open spec fn pow10(k: nat) -> int
    decreases k,
{
    if k == 0 {
        1
    } else {
        10 * pow10((k - 1) as nat)
    }
}

/// Bound below which every encoded integer magnitude must stay.
pub open spec fn int_magnitude_bound() -> int {
    pow10(max_int_digits() as nat)
}

pub proof fn lemma_pow10_18()
    ensures
        pow10(18) == 1_000_000_000_000_000_000,
{
    reveal_with_fuel(pow10, 20);
}

pub proof fn lemma_pow10_pos(k: nat)
    ensures
        pow10(k) >= 1,
    decreases k,
{
    if k > 0 {
        lemma_pow10_pos((k - 1) as nat);
    }
}

pub proof fn lemma_pow10_increases(a: nat, b: nat)
    requires
        a <= b,
    ensures
        1 <= pow10(a),
        pow10(a) <= pow10(b),
    decreases b,
{
    lemma_pow10_pos(a);
    if a < b {
        lemma_pow10_increases(a, (b - 1) as nat);
        lemma_pow10_pos((b - 1) as nat);
    }
}

// ---------------------------------------------------------------------------
// digits
// ---------------------------------------------------------------------------
pub open spec fn is_digit(c: char) -> bool {
    c == '0' || c == '1' || c == '2' || c == '3' || c == '4' || c == '5' || c == '6' || c == '7'
        || c == '8' || c == '9'
}

pub open spec fn digit_char(d: int) -> char {
    if d == 0 {
        '0'
    } else if d == 1 {
        '1'
    } else if d == 2 {
        '2'
    } else if d == 3 {
        '3'
    } else if d == 4 {
        '4'
    } else if d == 5 {
        '5'
    } else if d == 6 {
        '6'
    } else if d == 7 {
        '7'
    } else if d == 8 {
        '8'
    } else {
        '9'
    }
}

pub open spec fn digit_val(c: char) -> int {
    if c == '0' {
        0
    } else if c == '1' {
        1
    } else if c == '2' {
        2
    } else if c == '3' {
        3
    } else if c == '4' {
        4
    } else if c == '5' {
        5
    } else if c == '6' {
        6
    } else if c == '7' {
        7
    } else if c == '8' {
        8
    } else {
        9
    }
}

/// Decimal digits of a non-negative integer, most significant first.
pub open spec fn dec_digits(n: int) -> Seq<char>
    decreases n,
{
    if n < 10 {
        seq![digit_char(n)]
    } else {
        dec_digits(n / 10).push(digit_char(n % 10))
    }
}

/// Canonical text of a (possibly negative) integer.
pub open spec fn enc_int(i: int) -> Seq<char> {
    if i < 0 {
        seq!['-'] + dec_digits(-i)
    } else {
        dec_digits(i)
    }
}

pub proof fn lemma_digit_val_char(d: int)
    requires
        0 <= d <= 9,
    ensures
        digit_val(digit_char(d)) == d,
        is_digit(digit_char(d)),
{
}

pub proof fn lemma_hex_roundtrip(d: int)
    requires
        0 <= d < 16,
    ensures
        is_hex(hex_char(d)),
        hex_val(hex_char(d)) == d,
{
    if d < 10 {
        lemma_digit_val_char(d);
    }
}

/// Every character of `dec_digits(n)` is a digit, and the length is bounded
/// by the number of decimal digits of `n`.
pub proof fn lemma_dec_digits_shape(n: int, k: nat)
    requires
        0 <= n < pow10(k),
        k >= 1,
    ensures
        dec_digits(n).len() <= k,
        dec_digits(n).len() >= 1,
        forall|j: int| 0 <= j < dec_digits(n).len() ==> is_digit(#[trigger] dec_digits(n)[j]),
    decreases n,
{
    if n < 10 {
    } else {
        assert(pow10(k) == 10 * pow10((k - 1) as nat));
        assert(n / 10 < pow10((k - 1) as nat)) by {
            if n / 10 >= pow10((k - 1) as nat) {
                assert(n >= 10 * pow10((k - 1) as nat)) by (nonlinear_arith)
                    requires
                        n / 10 >= pow10((k - 1) as nat),
                        n >= 0,
                ;
            }
        }
        assert(k - 1 >= 1) by {
            if k == 1 {
                lemma_pow10_increases(1nat, 1nat);
                assert(n / 10 < 1 ==> n < 10) by (nonlinear_arith)
                    requires
                        n >= 0,
                ;
            }
        }
        lemma_dec_digits_shape(n / 10, (k - 1) as nat);
        let d = dec_digits(n);
        assert(forall|j: int| 0 <= j < d.len() - 1 ==> d[j] == dec_digits(n / 10)[j]);
    }
}

/// Value of a digit sequence, most significant first.
pub open spec fn digits_value(ds: Seq<char>) -> int
    decreases ds.len(),
{
    if ds.len() == 0 {
        0
    } else {
        digits_value(ds.drop_last()) * 10 + digit_val(ds.last())
    }
}

pub proof fn lemma_digits_value_of_dec(n: int)
    requires
        n >= 0,
    ensures
        digits_value(dec_digits(n)) == n,
    decreases n,
{
    if n < 10 {
        let ds = dec_digits(n);
        assert(ds =~= seq![digit_char(n)]);
        assert(ds.drop_last() =~= Seq::<char>::empty());
        assert(ds.last() == digit_char(n));
        lemma_digit_val_char(n);
        assert(digits_value(ds) == digits_value(ds.drop_last()) * 10 + digit_val(ds.last()));
        assert(digits_value(ds.drop_last()) == 0);
    } else {
        let ds = dec_digits(n);
        lemma_digits_value_of_dec(n / 10);
        assert(ds =~= dec_digits(n / 10).push(digit_char(n % 10)));
        assert(ds.drop_last() =~= dec_digits(n / 10));
        assert(ds.last() == digit_char(n % 10));
        vstd::arithmetic::div_mod::lemma_fundamental_div_mod(n, 10);
        assert(0 <= n % 10 <= 9);
        lemma_digit_val_char(n % 10);
        assert(digits_value(ds) == digits_value(ds.drop_last()) * 10 + digit_val(ds.last()));
    }
}

// ---------------------------------------------------------------------------
// string escaping
// ---------------------------------------------------------------------------
pub open spec fn hex_char(d: int) -> char {
    if d < 10 {
        digit_char(d)
    } else if d == 10 {
        'a'
    } else if d == 11 {
        'b'
    } else if d == 12 {
        'c'
    } else if d == 13 {
        'd'
    } else if d == 14 {
        'e'
    } else {
        'f'
    }
}

pub open spec fn is_hex(c: char) -> bool {
    is_digit(c) || c == 'a' || c == 'b' || c == 'c' || c == 'd' || c == 'e' || c == 'f'
}

pub open spec fn hex_val(c: char) -> int {
    if is_digit(c) {
        digit_val(c)
    } else if c == 'a' {
        10
    } else if c == 'b' {
        11
    } else if c == 'c' {
        12
    } else if c == 'd' {
        13
    } else if c == 'e' {
        14
    } else {
        15
    }
}

/// The control character with the given code.
pub open spec fn ctrl_char(code: int) -> char {
    (code as u32) as char
}

/// Canonical escape of one character inside a JSON string literal: the
/// named escapes, `\u00XX` for the rest of the control range, and the
/// character itself otherwise.
pub open spec fn esc_char(c: char) -> Seq<char> {
    if c == '"' {
        seq!['\\', '"']
    } else if c == '\\' {
        seq!['\\', '\\']
    } else if c == '\n' {
        seq!['\\', 'n']
    } else if c == '\r' {
        seq!['\\', 'r']
    } else if c == '\t' {
        seq!['\\', 't']
    } else if (c as u32) < 32 {
        seq!['\\', 'u', '0', '0', hex_char((c as u32) as int / 16), hex_char(
            (c as u32) as int % 16,
        )]
    } else {
        seq![c]
    }
}

pub open spec fn esc(s: Seq<char>) -> Seq<char>
    decreases s.len(),
{
    if s.len() == 0 {
        Seq::empty()
    } else {
        esc_char(s[0]) + esc(s.drop_first())
    }
}

pub proof fn lemma_esc_concat(a: Seq<char>, b: Seq<char>)
    ensures
        esc(a + b) == esc(a) + esc(b),
    decreases a.len(),
{
    if a.len() == 0 {
        assert(a + b =~= b);
        assert(esc(a) + esc(b) =~= esc(b));
    } else {
        assert((a + b).drop_first() =~= a.drop_first() + b);
        lemma_esc_concat(a.drop_first(), b);
        assert(esc_char((a + b)[0]) + (esc(a.drop_first()) + esc(b)) =~= (esc_char(a[0]) + esc(
            a.drop_first(),
        )) + esc(b));
    }
}

/// Canonical text of a JSON string literal, quotes included.
pub open spec fn enc_string(s: Seq<char>) -> Seq<char> {
    seq!['"'] + esc(s) + seq!['"']
}

// ---------------------------------------------------------------------------
// fields and objects
// ---------------------------------------------------------------------------
pub open spec fn enc_atom(v: AtomModel) -> Seq<char> {
    match v {
        AtomModel::S(s) => enc_string(s),
        AtomModel::I(i) => enc_int(i),
    }
}

/// `"key":` — keys are short ASCII identifiers and are never escaped.
pub open spec fn enc_key(k: Seq<char>) -> Seq<char> {
    seq!['"'] + k + seq!['"', ':']
}

/// The comma-separated field list of an object.
pub open spec fn enc_fields(fields: Seq<(Seq<char>, AtomModel)>) -> Seq<char>
    decreases fields.len(),
{
    if fields.len() == 0 {
        Seq::empty()
    } else if fields.len() == 1 {
        enc_key(fields[0].0) + enc_atom(fields[0].1)
    } else {
        enc_key(fields[0].0) + enc_atom(fields[0].1) + seq![','] + enc_fields(fields.drop_first())
    }
}

/// Canonical text of a whole object.
pub open spec fn enc_obj(fields: Seq<(Seq<char>, AtomModel)>) -> Seq<char> {
    seq!['{'] + enc_fields(fields) + seq!['}']
}

/// A key is plain: non-empty ASCII letters, digits or underscores. Such a
/// key needs no escaping and can never be confused with a quote.
pub open spec fn plain_key_char(c: char) -> bool {
    c == '_' || ('a' <= c && c <= 'z') || ('A' <= c && c <= 'Z') || ('0' <= c && c <= '9')
}

pub open spec fn plain_key(k: Seq<char>) -> bool {
    k.len() > 0 && forall|i: int| 0 <= i < k.len() ==> plain_key_char(#[trigger] k[i])
}

/// Shape of one expected field: its key and whether its value is a string.
pub struct FieldKind {
    pub key: Seq<char>,
    pub is_string: bool,
}

pub open spec fn kind_of(f: (Seq<char>, AtomModel)) -> FieldKind {
    FieldKind { key: f.0, is_string: f.1 is S }
}

pub open spec fn kinds_of(fields: Seq<(Seq<char>, AtomModel)>) -> Seq<FieldKind> {
    fields.map_values(|f: (Seq<char>, AtomModel)| kind_of(f))
}

pub open spec fn atoms_of(fields: Seq<(Seq<char>, AtomModel)>) -> Seq<AtomModel> {
    fields.map_values(|f: (Seq<char>, AtomModel)| f.1)
}

/// An integer atom whose magnitude the decoder can reproduce.
pub open spec fn atom_in_range(v: AtomModel) -> bool {
    match v {
        AtomModel::S(_) => true,
        AtomModel::I(i) => -int_magnitude_bound() < i < int_magnitude_bound(),
    }
}

pub open spec fn fields_wf(fields: Seq<(Seq<char>, AtomModel)>) -> bool {
    forall|i: int|
        0 <= i < fields.len() ==> plain_key((#[trigger] fields[i]).0) && atom_in_range(
            fields[i].1,
        )
}

// ---------------------------------------------------------------------------
// the decoder, as spec functions
// ---------------------------------------------------------------------------
/// Does `lit` occur in `s` at position `i`?
pub open spec fn lit_at(s: Seq<char>, i: int, lit: Seq<char>) -> bool {
    0 <= i && i + lit.len() <= s.len() && s.subrange(i, i + lit.len()) == lit
}

/// Scan a string body (after the opening quote), unescaping as we go;
/// `acc` holds the characters already decoded. Returns the decoded content
/// and the position just after the closing quote.
pub open spec fn dec_string_body(s: Seq<char>, i: int, acc: Seq<char>) -> Option<(Seq<char>, int)>
    decreases s.len() - i,
{
    if i < 0 || i >= s.len() {
        None
    } else if s[i] == '"' {
        Some((acc, i + 1))
    } else if s[i] == '\\' {
        if i + 1 >= s.len() {
            None
        } else {
            let e = s[i + 1];
            if e == '"' {
                dec_string_body(s, i + 2, acc.push('"'))
            } else if e == '\\' {
                dec_string_body(s, i + 2, acc.push('\\'))
            } else if e == 'n' {
                dec_string_body(s, i + 2, acc.push('\n'))
            } else if e == 'r' {
                dec_string_body(s, i + 2, acc.push('\r'))
            } else if e == 't' {
                dec_string_body(s, i + 2, acc.push('\t'))
            } else if e == 'u' {
                if i + 5 < s.len() && s[i + 2] == '0' && s[i + 3] == '0' && is_hex(s[i + 4])
                    && is_hex(s[i + 5]) && hex_val(s[i + 4]) * 16 + hex_val(s[i + 5]) < 32 {
                    dec_string_body(
                        s,
                        i + 6,
                        acc.push(ctrl_char(hex_val(s[i + 4]) * 16 + hex_val(s[i + 5]))),
                    )
                } else {
                    None
                }
            } else {
                None
            }
        }
    } else {
        dec_string_body(s, i + 1, acc.push(s[i]))
    }
}

/// Length of the run of digits starting at `i`.
pub open spec fn digit_run_len(s: Seq<char>, i: int) -> int
    decreases s.len() - i,
{
    if 0 <= i < s.len() && is_digit(s[i]) {
        1 + digit_run_len(s, i + 1)
    } else {
        0
    }
}

/// Accumulate the value of the digit run starting at `i`.
pub open spec fn dec_digit_run(s: Seq<char>, i: int, acc: int) -> (int, int)
    decreases s.len() - i,
{
    if 0 <= i < s.len() && is_digit(s[i]) {
        dec_digit_run(s, i + 1, acc * 10 + digit_val(s[i]))
    } else {
        (acc, i)
    }
}

/// A non-negative integer at `i`: a digit run of bounded length.
pub open spec fn dec_uint(s: Seq<char>, i: int) -> Option<(int, int)> {
    if 0 <= i < s.len() && is_digit(s[i]) && digit_run_len(s, i) <= max_int_digits() {
        Some(dec_digit_run(s, i, 0))
    } else {
        None
    }
}

/// Position just past an optional fractional part at `j`: a decimal point
/// followed by at least one digit. The fraction's value is dropped, as the
/// protocol's integer fields truncate.
pub open spec fn frac_end(s: Seq<char>, j: int) -> int {
    if 0 <= j && j + 1 < s.len() && s[j] == '.' && is_digit(s[j + 1]) {
        j + 1 + digit_run_len(s, j + 1)
    } else {
        j
    }
}

/// A possibly negative number at `i`, truncated to its integer part.
pub open spec fn dec_int(s: Seq<char>, i: int) -> Option<(int, int)> {
    let core = if 0 <= i < s.len() && s[i] == '-' {
        match dec_uint(s, i + 1) {
            Some((v, j)) => Some((-v, j)),
            None => None,
        }
    } else {
        dec_uint(s, i)
    };
    match core {
        Some((v, j)) => Some((v, frac_end(s, j))),
        None => None,
    }
}

/// One value of known shape at `i`.
pub open spec fn dec_atom(s: Seq<char>, i: int, is_string: bool) -> Option<(AtomModel, int)> {
    if is_string {
        if 0 <= i < s.len() && s[i] == '"' {
            match dec_string_body(s, i + 1, Seq::empty()) {
                Some((content, j)) => Some((AtomModel::S(content), j)),
                None => None,
            }
        } else {
            None
        }
    } else {
        match dec_int(s, i) {
            Some((v, j)) => Some((AtomModel::I(v), j)),
            None => None,
        }
    }
}

/// The comma-separated fields demanded by `kinds`, starting at `i`;
/// `acc` holds the atoms already decoded.
pub open spec fn dec_fields(s: Seq<char>, i: int, kinds: Seq<FieldKind>, acc: Seq<AtomModel>) -> Option<
    (Seq<AtomModel>, int),
>
    decreases kinds.len(),
{
    if kinds.len() == 0 {
        Some((acc, i))
    } else {
        let k = kinds[0];
        if lit_at(s, i, enc_key(k.key)) {
            let i2 = i + enc_key(k.key).len();
            match dec_atom(s, i2, k.is_string) {
                Some((v, i3)) => {
                    if kinds.len() == 1 {
                        dec_fields(s, i3, kinds.drop_first(), acc.push(v))
                    } else if 0 <= i3 < s.len() && s[i3] == ',' {
                        dec_fields(s, i3 + 1, kinds.drop_first(), acc.push(v))
                    } else {
                        None
                    }
                },
                None => None,
            }
        } else {
            None
        }
    }
}

// ---------------------------------------------------------------------------
// the decoder inverts the encoder
// ---------------------------------------------------------------------------
pub proof fn lemma_lit_at_split(s: Seq<char>, i: int, a: Seq<char>, b: Seq<char>)
    requires
        lit_at(s, i, a + b),
    ensures
        lit_at(s, i, a),
        lit_at(s, i + a.len(), b),
{
    let ab = a + b;
    assert(s.subrange(i, i + a.len()) =~= a) by {
        assert forall|k: int| 0 <= k < a.len() implies s.subrange(i, i + a.len() as int)[k]
            == a[k] by {
            assert(s.subrange(i, i + ab.len() as int)[k] == ab[k]);
        }
    }
    assert(s.subrange(i + a.len(), i + a.len() + b.len()) =~= b) by {
        assert forall|k: int|
            0 <= k < b.len() implies s.subrange(
            i + a.len() as int,
            i + a.len() + b.len() as int,
        )[k] == b[k] by {
            assert(s.subrange(i, i + ab.len() as int)[a.len() + k] == ab[a.len() + k]);
        }
    }
}

pub proof fn lemma_lit_at_char(s: Seq<char>, i: int, c: char)
    requires
        lit_at(s, i, seq![c]),
    ensures
        0 <= i < s.len() && s[i] == c,
{
    assert(s.subrange(i, i + 1)[0] == s[i]);
}

/// Scanning the escaped text of `content` followed by a closing quote
/// recovers `content` exactly.
pub proof fn lemma_dec_string_of_esc(s: Seq<char>, i: int, content: Seq<char>, acc: Seq<char>)
    requires
        lit_at(s, i, esc(content) + seq!['"']),
    ensures
        dec_string_body(s, i, acc) == Some::<(Seq<char>, int)>(
            (acc + content, i + esc(content).len() + 1),
        ),
    decreases content.len(),
{
    if content.len() == 0 {
        assert(esc(content) + seq!['"'] =~= seq!['"']);
        lemma_lit_at_char(s, i, '"');
        assert(acc + content =~= acc);
    } else {
        let c = content[0];
        let rest = content.drop_first();
        assert(esc(content) == esc_char(c) + esc(rest));
        assert(esc(content) + seq!['"'] =~= esc_char(c) + (esc(rest) + seq!['"']));
        lemma_lit_at_split(s, i, esc_char(c), esc(rest) + seq!['"']);
        let i2 = i + esc_char(c).len();
        if !(c == '"' || c == '\\' || c == '\n' || c == '\r' || c == '\t') && (c as u32)
            < 32 {
            let hi = hex_char((c as u32) as int / 16);
            let lo = hex_char((c as u32) as int % 16);
            assert(esc_char(c) =~= seq!['\\', 'u', '0', '0', hi, lo]);
            assert(esc_char(c) + (esc(rest) + seq!['"']) =~= seq!['\\'] + (seq!['u'] + (seq!['0']
                + (seq!['0'] + (seq![hi] + (seq![lo] + (esc(rest) + seq!['"'])))))));
            lemma_lit_at_split(s, i, seq!['\\'], seq!['u'] + (seq!['0'] + (seq!['0'] + (seq![hi]
                + (seq![lo] + (esc(rest) + seq!['"']))))));
            lemma_lit_at_char(s, i, '\\');
            lemma_lit_at_split(s, i + 1, seq!['u'], seq!['0'] + (seq!['0'] + (seq![hi] + (seq![lo]
                + (esc(rest) + seq!['"'])))));
            lemma_lit_at_char(s, i + 1, 'u');
            lemma_lit_at_split(s, i + 2, seq!['0'], seq!['0'] + (seq![hi] + (seq![lo] + (esc(rest)
                + seq!['"']))));
            lemma_lit_at_char(s, i + 2, '0');
            lemma_lit_at_split(s, i + 3, seq!['0'], seq![hi] + (seq![lo] + (esc(rest)
                + seq!['"'])));
            lemma_lit_at_char(s, i + 3, '0');
            lemma_lit_at_split(s, i + 4, seq![hi], seq![lo] + (esc(rest) + seq!['"']));
            lemma_lit_at_char(s, i + 4, hi);
            lemma_lit_at_split(s, i + 5, seq![lo], esc(rest) + seq!['"']);
            lemma_lit_at_char(s, i + 5, lo);
            vstd::arithmetic::div_mod::lemma_fundamental_div_mod((c as u32) as int, 16);
            lemma_hex_roundtrip((c as u32) as int / 16);
            lemma_hex_roundtrip((c as u32) as int % 16);
            assert(hex_val(hi) * 16 + hex_val(lo) == (c as u32) as int);
            vstd::utf8::char_u32_cast(c, c as u32);
            assert(ctrl_char(hex_val(hi) * 16 + hex_val(lo)) == c);
            lemma_dec_string_of_esc(s, i2, rest, acc.push(c));
            assert(acc.push(c) + rest =~= acc + content);
        } else if c == '"' || c == '\\' || c == '\n' || c == '\r' || c == '\t' {
            let e: char = if c == '"' {
                '"'
            } else if c == '\\' {
                '\\'
            } else if c == '\n' {
                'n'
            } else if c == '\r' {
                'r'
            } else {
                't'
            };
            assert(esc_char(c) =~= seq!['\\', e]);
            assert(esc_char(c) + (esc(rest) + seq!['"']) =~= seq!['\\'] + (seq![e] + (esc(rest)
                + seq!['"'])));
            lemma_lit_at_split(s, i, seq!['\\'], seq![e] + (esc(rest) + seq!['"']));
            lemma_lit_at_char(s, i, '\\');
            lemma_lit_at_split(s, i + 1, seq![e], esc(rest) + seq!['"']);
            lemma_lit_at_char(s, i + 1, e);
            lemma_dec_string_of_esc(s, i2, rest, acc.push(c));
            assert(acc.push(c) + rest =~= acc + content);
        } else {
            assert(esc_char(c) =~= seq![c]);
            lemma_lit_at_char(s, i, c);
            lemma_dec_string_of_esc(s, i + 1, rest, acc.push(c));
            assert(acc.push(c) + rest =~= acc + content);
        }
    }
}

/// The value of a digit sequence read from its first digit.
pub proof fn lemma_digits_value_first(ds: Seq<char>)
    requires
        ds.len() > 0,
    ensures
        digits_value(ds) == digit_val(ds[0]) * pow10((ds.len() - 1) as nat) + digits_value(
            ds.drop_first(),
        ),
    decreases ds.len(),
{
    if ds.len() == 1 {
        assert(ds.drop_last() =~= Seq::<char>::empty());
        assert(ds.drop_first() =~= Seq::<char>::empty());
    } else {
        let dl = ds.drop_last();
        lemma_digits_value_first(dl);
        assert(dl.drop_first() =~= ds.drop_first().drop_last());
        assert(ds.drop_first().last() == ds.last());
        let p = pow10((ds.len() - 2) as nat);
        assert(pow10((ds.len() - 1) as nat) == 10 * p);
        assert((digit_val(ds[0]) * p + digits_value(ds.drop_first().drop_last())) * 10 == digit_val(
            ds[0],
        ) * (10 * p) + digits_value(ds.drop_first().drop_last()) * 10) by (nonlinear_arith);
    }
}

/// Scanning a run of digits accumulates its value.
pub proof fn lemma_dec_digit_run(s: Seq<char>, i: int, ds: Seq<char>, acc: int)
    requires
        lit_at(s, i, ds),
        forall|j: int| 0 <= j < ds.len() ==> is_digit(#[trigger] ds[j]),
        i + ds.len() == s.len() || !is_digit(s[i + ds.len()]),
    ensures
        digit_run_len(s, i) == ds.len(),
        dec_digit_run(s, i, acc) == (acc * pow10(ds.len() as nat) + digits_value(ds), i
            + ds.len()),
    decreases ds.len(),
{
    if ds.len() == 0 {
    } else {
        let c = ds[0];
        assert(ds =~= seq![c] + ds.drop_first());
        lemma_lit_at_split(s, i, seq![c], ds.drop_first());
        lemma_lit_at_char(s, i, c);
        lemma_dec_digit_run(s, i + 1, ds.drop_first(), acc * 10 + digit_val(c));
        lemma_digits_value_first(ds);
        let p = pow10((ds.len() - 1) as nat);
        assert((acc * 10 + digit_val(c)) * p == acc * (10 * p) + digit_val(c) * p)
            by (nonlinear_arith);
        assert(pow10(ds.len() as nat) == 10 * p);
    }
}

/// The canonical text of `n`, followed by a non-digit, decodes to `n`.
pub proof fn lemma_dec_uint_of_enc(s: Seq<char>, i: int, n: int)
    requires
        0 <= n < int_magnitude_bound(),
        lit_at(s, i, dec_digits(n)),
        i + dec_digits(n).len() == s.len() || !is_digit(s[i + dec_digits(n).len()]),
    ensures
        dec_uint(s, i) == Some::<(int, int)>((n, i + dec_digits(n).len())),
{
    lemma_dec_digits_shape(n, max_int_digits() as nat);
    lemma_dec_digit_run(s, i, dec_digits(n), 0);
    lemma_digits_value_of_dec(n);
    assert(dec_digits(n)[0] == s.subrange(i, i + dec_digits(n).len())[0]);
    assert(s[i] == dec_digits(n)[0]);
}

/// The canonical text of a bounded integer, followed by neither a digit
/// nor a decimal point, decodes to that integer.
pub proof fn lemma_dec_int_of_enc(s: Seq<char>, i: int, v: int)
    requires
        -int_magnitude_bound() < v < int_magnitude_bound(),
        lit_at(s, i, enc_int(v)),
        i + enc_int(v).len() == s.len() || (!is_digit(s[i + enc_int(v).len()]) && s[i + enc_int(
            v,
        ).len()] != '.'),
    ensures
        dec_int(s, i) == Some::<(int, int)>((v, i + enc_int(v).len())),
{
    if v < 0 {
        assert(enc_int(v) =~= seq!['-'] + dec_digits(-v));
        lemma_lit_at_split(s, i, seq!['-'], dec_digits(-v));
        lemma_lit_at_char(s, i, '-');
        lemma_dec_uint_of_enc(s, i + 1, -v);
    } else {
        lemma_dec_digits_shape(v, max_int_digits() as nat);
        assert(s[i] == dec_digits(v)[0]) by {
            assert(dec_digits(v)[0] == s.subrange(i, i + dec_digits(v).len())[0]);
        }
        assert(is_digit(s[i]));
        assert(s[i] != '-');
        lemma_dec_uint_of_enc(s, i, v);
    }
}

/// The encoded field list of `fields`, followed by a closing brace,
/// decodes to exactly the atoms of `fields`.
pub proof fn lemma_dec_fields_of_enc(
    s: Seq<char>,
    i: int,
    fields: Seq<(Seq<char>, AtomModel)>,
    acc: Seq<AtomModel>,
)
    requires
        fields_wf(fields),
        lit_at(s, i, enc_fields(fields) + seq!['}']),
    ensures
        dec_fields(s, i, kinds_of(fields), acc) == Some::<(Seq<AtomModel>, int)>(
            (acc + atoms_of(fields), i + enc_fields(fields).len()),
        ),
    decreases fields.len(),
{
    let kinds = kinds_of(fields);
    if fields.len() == 0 {
        assert(kinds.len() == 0);
        assert(acc + atoms_of(fields) =~= acc);
    } else {
        let key = fields[0].0;
        let v = fields[0].1;
        let rest = fields.drop_first();
        assert(kinds[0] == kind_of(fields[0]));
        assert(kinds.drop_first() =~= kinds_of(rest));
        assert(atoms_of(fields) =~= seq![v] + atoms_of(rest));
        let tail: Seq<char> = if fields.len() == 1 {
            seq!['}']
        } else {
            seq![','] + (enc_fields(rest) + seq!['}'])
        };
        assert(enc_fields(fields) + seq!['}'] =~= enc_key(key) + (enc_atom(v) + tail));
        lemma_lit_at_split(s, i, enc_key(key), enc_atom(v) + tail);
        let i2 = i + enc_key(key).len();
        lemma_lit_at_split(s, i2, enc_atom(v), tail);
        let i3 = i2 + enc_atom(v).len();
        // the character after the atom is ',' or '}'
        let after: char = if fields.len() == 1 {
            '}'
        } else {
            ','
        };
        assert(lit_at(s, i3, seq![after])) by {
            if fields.len() == 1 {
            } else {
                lemma_lit_at_split(s, i3, seq![','], enc_fields(rest) + seq!['}']);
            }
        }
        lemma_lit_at_char(s, i3, after);
        match v {
            AtomModel::S(content) => {
                assert(enc_atom(v) =~= seq!['"'] + (esc(content) + seq!['"']));
                lemma_lit_at_split(s, i2, seq!['"'], esc(content) + seq!['"']);
                lemma_lit_at_char(s, i2, '"');
                lemma_dec_string_of_esc(s, i2 + 1, content, Seq::empty());
                assert(Seq::<char>::empty() + content =~= content);
                assert(dec_atom(s, i2, true) == Some::<(AtomModel, int)>((v, i3)));
            },
            AtomModel::I(n) => {
                lemma_dec_int_of_enc(s, i2, n);
                assert(dec_atom(s, i2, false) == Some::<(AtomModel, int)>((v, i3)));
            },
        }
        if fields.len() == 1 {
            assert(dec_fields(s, i3, kinds.drop_first(), acc.push(v)) == Some::<(
                Seq<AtomModel>,
                int,
            )>((acc.push(v), i3)));
            assert(acc.push(v) =~= acc + atoms_of(fields));
        } else {
            lemma_lit_at_split(s, i3, seq![','], enc_fields(rest) + seq!['}']);
            lemma_dec_fields_of_enc(s, i3 + 1, rest, acc.push(v));
            assert(acc.push(v) + atoms_of(rest) =~= acc + atoms_of(fields));
        }
    }
}

/// Round trip for a whole object: decoding the canonical encoding of a
/// well-formed field list yields exactly its atoms.
pub proof fn lemma_dec_obj_of_enc(fields: Seq<(Seq<char>, AtomModel)>)
    requires
        fields_wf(fields),
    ensures
        dec_obj(enc_obj(fields), kinds_of(fields)) == Some(atoms_of(fields)),
{
    let s = enc_obj(fields);
    let body = enc_fields(fields);
    assert(s =~= seq!['{'] + (body + seq!['}']));
    assert(s.subrange(0, s.len() as int) =~= s);
    lemma_lit_at_split(s, 0, seq!['{'], body + seq!['}']);
    lemma_lit_at_char(s, 0, '{');
    lemma_dec_fields_of_enc(s, 1, fields, Seq::empty());
    assert(Seq::<AtomModel>::empty() + atoms_of(fields) =~= atoms_of(fields));
    assert(s[1 + body.len() as int] == '}') by {
        lemma_lit_at_split(s, 1, body, seq!['}']);
        lemma_lit_at_char(s, 1 + body.len() as int, '}');
    }
}

/// A whole object: `{`, the expected fields, `}`, end of input.
pub open spec fn dec_obj(s: Seq<char>, kinds: Seq<FieldKind>) -> Option<Seq<AtomModel>> {
    if s.len() >= 2 && s[0] == '{' {
        match dec_fields(s, 1, kinds, Seq::empty()) {
            Some((vs, j)) => {
                if j + 1 == s.len() && s[j] == '}' {
                    Some(vs)
                } else {
                    None
                }
            },
            None => None,
        }
    } else {
        None
    }
}

// ---------------------------------------------------------------------------
// characters <-> strings
// ---------------------------------------------------------------------------
/// Relies on String::push: appends the given char to the end of the string.
#[verifier::external_body]
pub fn push_char(s: &mut String, c: char)
    ensures
        final(s)@ == old(s)@.push(c),
{
    s.push(c);
}

/// The characters of a string slice, as a vector.
pub fn str_to_chars(s: &str) -> (r: Vec<char>)
    ensures
        r@ == s@,
{
    let n = s.unicode_len();
    let mut r: Vec<char> = Vec::new();
    let mut i: usize = 0;
    while i < n
        invariant
            n == s@.len(),
            0 <= i <= n,
            r@ == s@.subrange(0, i as int),
        decreases n - i,
    {
        r.push(s.get_char(i));
        i = i + 1;
        assert(r@ =~= s@.subrange(0, i as int));
    }
    assert(s@.subrange(0, n as int) =~= s@);
    r
}

/// A string made of the given characters.
pub fn chars_to_string(v: &Vec<char>) -> (r: String)
    ensures
        r@ == v@,
{
    let mut r = String::new();
    let mut i: usize = 0;
    while i < v.len()
        invariant
            0 <= i <= v.len(),
            r@ == v@.subrange(0, i as int),
        decreases v.len() - i,
    {
        push_char(&mut r, v[i]);
        i = i + 1;
        assert(r@ =~= v@.subrange(0, i as int));
    }
    assert(v@.subrange(0, v.len() as int) =~= v@);
    r
}

// ---------------------------------------------------------------------------
// executable encoder
// ---------------------------------------------------------------------------
fn digit_to_char(d: u64) -> (c: char)
    requires
        d < 10,
    ensures
        c == digit_char(d as int),
{
    if d == 0 {
        '0'
    } else if d == 1 {
        '1'
    } else if d == 2 {
        '2'
    } else if d == 3 {
        '3'
    } else if d == 4 {
        '4'
    } else if d == 5 {
        '5'
    } else if d == 6 {
        '6'
    } else if d == 7 {
        '7'
    } else if d == 8 {
        '8'
    } else {
        '9'
    }
}

fn hex_char_exec(d: u32) -> (c: char)
    requires
        d < 16,
    ensures
        c == hex_char(d as int),
{
    if d == 0 {
        '0'
    } else if d == 1 {
        '1'
    } else if d == 2 {
        '2'
    } else if d == 3 {
        '3'
    } else if d == 4 {
        '4'
    } else if d == 5 {
        '5'
    } else if d == 6 {
        '6'
    } else if d == 7 {
        '7'
    } else if d == 8 {
        '8'
    } else if d == 9 {
        '9'
    } else if d == 10 {
        'a'
    } else if d == 11 {
        'b'
    } else if d == 12 {
        'c'
    } else if d == 13 {
        'd'
    } else if d == 14 {
        'e'
    } else {
        'f'
    }
}

fn is_hex_exec(c: char) -> (b: bool)
    ensures
        b == is_hex(c),
{
    is_digit_exec(c) || c == 'a' || c == 'b' || c == 'c' || c == 'd' || c == 'e' || c == 'f'
}

fn hex_val_exec(c: char) -> (d: u32)
    requires
        is_hex(c),
    ensures
        d == hex_val(c),
        d < 16,
{
    if is_digit_exec(c) {
        char_digit_val(c) as u32
    } else if c == 'a' {
        10
    } else if c == 'b' {
        11
    } else if c == 'c' {
        12
    } else if c == 'd' {
        13
    } else if c == 'e' {
        14
    } else {
        15
    }
}

fn ctrl_char_exec(code: u32) -> (c: char)
    requires
        code < 32,
    ensures
        c == ctrl_char(code as int),
{
    broadcast use vstd::utf8::char_u32_cast;

    if code == 0 {
        '\u{00}'
    } else if code == 1 {
        '\u{01}'
    } else if code == 2 {
        '\u{02}'
    } else if code == 3 {
        '\u{03}'
    } else if code == 4 {
        '\u{04}'
    } else if code == 5 {
        '\u{05}'
    } else if code == 6 {
        '\u{06}'
    } else if code == 7 {
        '\u{07}'
    } else if code == 8 {
        '\u{08}'
    } else if code == 9 {
        '\u{09}'
    } else if code == 10 {
        '\u{0a}'
    } else if code == 11 {
        '\u{0b}'
    } else if code == 12 {
        '\u{0c}'
    } else if code == 13 {
        '\u{0d}'
    } else if code == 14 {
        '\u{0e}'
    } else if code == 15 {
        '\u{0f}'
    } else if code == 16 {
        '\u{10}'
    } else if code == 17 {
        '\u{11}'
    } else if code == 18 {
        '\u{12}'
    } else if code == 19 {
        '\u{13}'
    } else if code == 20 {
        '\u{14}'
    } else if code == 21 {
        '\u{15}'
    } else if code == 22 {
        '\u{16}'
    } else if code == 23 {
        '\u{17}'
    } else if code == 24 {
        '\u{18}'
    } else if code == 25 {
        '\u{19}'
    } else if code == 26 {
        '\u{1a}'
    } else if code == 27 {
        '\u{1b}'
    } else if code == 28 {
        '\u{1c}'
    } else if code == 29 {
        '\u{1d}'
    } else if code == 30 {
        '\u{1e}'
    } else {
        '\u{1f}'
    }
}

pub fn encode_u64_into(out: &mut Vec<char>, n: u64)
    ensures
        final(out)@ == old(out)@ + dec_digits(n as int),
    decreases n,
{
    if n < 10 {
        out.push(digit_to_char(n));
        assert(final(out)@ =~= old(out)@ + dec_digits(n as int));
    } else {
        encode_u64_into(out, n / 10);
        out.push(digit_to_char(n % 10));
        assert(final(out)@ =~= old(out)@ + dec_digits(n as int));
    }
}

pub fn encode_i64_into(out: &mut Vec<char>, v: i64)
    requires
        v > i64::MIN,
    ensures
        final(out)@ == old(out)@ + enc_int(v as int),
{
    if v < 0 {
        out.push('-');
        let m: u64 = (-v) as u64;
        encode_u64_into(out, m);
        assert(final(out)@ =~= old(out)@ + enc_int(v as int));
    } else {
        encode_u64_into(out, v as u64);
    }
}

pub fn encode_string_into(out: &mut Vec<char>, s: &str)
    ensures
        final(out)@ == old(out)@ + enc_string(s@),
{
    out.push('"');
    let n = s.unicode_len();
    let mut i: usize = 0;
    while i < n
        invariant
            n == s@.len(),
            0 <= i <= n,
            out@ == old(out)@ + seq!['"'] + esc(s@.subrange(0, i as int)),
        decreases n - i,
    {
        let c = s.get_char(i);
        let ghost pre = out@;
        if c == '"' {
            out.push('\\');
            out.push('"');
        } else if c == '\\' {
            out.push('\\');
            out.push('\\');
        } else if c == '\n' {
            out.push('\\');
            out.push('n');
        } else if c == '\r' {
            out.push('\\');
            out.push('r');
        } else if c == '\t' {
            out.push('\\');
            out.push('t');
        } else if (c as u32) < 32 {
            out.push('\\');
            out.push('u');
            out.push('0');
            out.push('0');
            out.push(hex_char_exec((c as u32) / 16));
            out.push(hex_char_exec((c as u32) % 16));
        } else {
            out.push(c);
        }
        assert(out@ =~= pre + esc_char(c));
        proof {
            lemma_esc_concat(s@.subrange(0, i as int), seq![c]);
            assert(s@.subrange(0, i + 1) =~= s@.subrange(0, i as int) + seq![c]);
            assert(esc(seq![c]) =~= esc_char(c)) by {
                let sc = seq![c];
                assert(sc.len() == 1);
                assert(sc[0] == c);
                assert(sc.drop_first() =~= Seq::<char>::empty());
                assert(esc(sc) == esc_char(sc[0]) + esc(sc.drop_first()));
                assert(esc(Seq::<char>::empty()) == Seq::<char>::empty());
            }
            assert(pre + esc_char(c) =~= old(out)@ + seq!['"'] + esc(s@.subrange(0, i + 1)));
        }
        i = i + 1;
    }
    assert(s@.subrange(0, n as int) =~= s@);
    out.push('"');
    assert(final(out)@ =~= old(out)@ + enc_string(s@));
}

pub fn encode_atom_into(out: &mut Vec<char>, a: &JsonAtom)
    requires
        atom_in_range(a@),
    ensures
        final(out)@ == old(out)@ + enc_atom(a@),
{
    match a {
        JsonAtom::S(s) => {
            encode_string_into(out, s.as_str());
        },
        JsonAtom::I(i) => {
            proof {
                lemma_pow10_18();
            }
            encode_i64_into(out, *i);
        },
    }
}

fn encode_key_into(out: &mut Vec<char>, key: &Vec<char>)
    ensures
        final(out)@ == old(out)@ + enc_key(key@),
{
    out.push('"');
    let mut j: usize = 0;
    while j < key.len()
        invariant
            0 <= j <= key.len(),
            out@ == old(out)@ + seq!['"'] + key@.subrange(0, j as int),
        decreases key.len() - j,
    {
        out.push(key[j]);
        j = j + 1;
        assert(out@ =~= old(out)@ + seq!['"'] + key@.subrange(0, j as int));
    }
    assert(key@.subrange(0, key.len() as int) =~= key@);
    out.push('"');
    out.push(':');
    assert(final(out)@ =~= old(out)@ + enc_key(key@));
}

/// View of an executable field list.
pub open spec fn efields_view(v: Seq<(Vec<char>, JsonAtom)>) -> Seq<(Seq<char>, AtomModel)> {
    v.map_values(|f: (Vec<char>, JsonAtom)| (f.0@, f.1@))
}

fn encode_fields_into(out: &mut Vec<char>, fields: &Vec<(Vec<char>, JsonAtom)>, start: usize)
    requires
        start <= fields@.len(),
        fields_wf(efields_view(fields@)),
    ensures
        final(out)@ == old(out)@ + enc_fields(efields_view(fields@).skip(start as int)),
    decreases fields@.len() - start,
{
    let ghost fl = efields_view(fields@).skip(start as int);
    if start >= fields.len() {
        assert(fl =~= Seq::<(Seq<char>, AtomModel)>::empty());
        assert(final(out)@ =~= old(out)@ + enc_fields(fl));
    } else {
        assert(fl[0] == efields_view(fields@)[start as int]);
        let f = &fields[start];
        encode_key_into(out, &f.0);
        assert(atom_in_range(f.1@)) by {
            assert(plain_key(efields_view(fields@)[start as int].0) && atom_in_range(
                efields_view(fields@)[start as int].1,
            ));
            assert(efields_view(fields@)[start as int].1 == f.1@);
        }
        encode_atom_into(out, &f.1);
        if start + 1 < fields.len() {
            out.push(',');
            encode_fields_into(out, fields, start + 1);
            assert(fl.drop_first() =~= efields_view(fields@).skip(start + 1));
            assert(final(out)@ =~= old(out)@ + enc_fields(fl));
        } else {
            assert(fl.len() == 1);
            assert(final(out)@ =~= old(out)@ + enc_fields(fl));
        }
    }
}

/// Encode a whole object in canonical form.
pub fn encode_obj(fields: &Vec<(Vec<char>, JsonAtom)>) -> (r: Vec<char>)
    requires
        fields_wf(efields_view(fields@)),
    ensures
        r@ == enc_obj(efields_view(fields@)),
{
    let mut out: Vec<char> = Vec::new();
    out.push('{');
    encode_fields_into(&mut out, fields, 0);
    assert(efields_view(fields@).skip(0) =~= efields_view(fields@));
    out.push('}');
    assert(out@ =~= enc_obj(efields_view(fields@)));
    out
}

// ---------------------------------------------------------------------------
// executable parser
// ---------------------------------------------------------------------------
fn char_digit_val(c: char) -> (d: u64)
    requires
        is_digit(c),
    ensures
        d == digit_val(c),
        d <= 9,
{
    if c == '0' {
        0
    } else if c == '1' {
        1
    } else if c == '2' {
        2
    } else if c == '3' {
        3
    } else if c == '4' {
        4
    } else if c == '5' {
        5
    } else if c == '6' {
        6
    } else if c == '7' {
        7
    } else if c == '8' {
        8
    } else {
        9
    }
}

fn is_digit_exec(c: char) -> (b: bool)
    ensures
        b == is_digit(c),
{
    c == '0' || c == '1' || c == '2' || c == '3' || c == '4' || c == '5' || c == '6' || c == '7'
        || c == '8' || c == '9'
}

/// Scan a string body from just after the opening quote.
pub fn parse_string_body(s: &Vec<char>, start: usize) -> (r: Option<(Vec<char>, usize)>)
    requires
        start <= s@.len(),
    ensures
        match r {
            Some(p) => dec_string_body(s@, start as int, Seq::empty()) == Some::<(Seq<char>, int)>(
                (p.0@, p.1 as int),
            ) && p.1 <= s@.len(),
            None => dec_string_body(s@, start as int, Seq::empty()) is None,
        },
{
    let mut acc: Vec<char> = Vec::new();
    let mut i: usize = start;
    loop
        invariant
            start <= i <= s@.len(),
            dec_string_body(s@, start as int, Seq::empty()) == dec_string_body(
                s@,
                i as int,
                acc@,
            ),
        decreases s@.len() - i,
    {
        if i >= s.len() {
            return None;
        }
        let c = s[i];
        if c == '"' {
            return Some((acc, i + 1));
        } else if c == '\\' {
            if i + 1 >= s.len() {
                return None;
            }
            let e = s[i + 1];
            if e == '"' {
                acc.push('"');
            } else if e == '\\' {
                acc.push('\\');
            } else if e == 'n' {
                acc.push('\n');
            } else if e == 'r' {
                acc.push('\r');
            } else if e == 't' {
                acc.push('\t');
            } else if e == 'u' {
                if s.len() - i > 5 && s[i + 2] == '0' && s[i + 3] == '0' && is_hex_exec(s[i + 4])
                    && is_hex_exec(s[i + 5]) {
                    let code = hex_val_exec(s[i + 4]) * 16 + hex_val_exec(s[i + 5]);
                    if code < 32 {
                        acc.push(ctrl_char_exec(code));
                        i = i + 6;
                        continue ;
                    }
                }
                return None;
            } else {
                return None;
            }
            i = i + 2;
        } else {
            acc.push(c);
            i = i + 1;
        }
    }
}

/// Parse a non-negative integer (a bounded digit run).
pub fn parse_uint(s: &Vec<char>, start: usize) -> (r: Option<(u64, usize)>)
    requires
        start <= s@.len(),
    ensures
        match r {
            Some(p) => dec_uint(s@, start as int) == Some::<(int, int)>((p.0 as int, p.1 as int))
                && p.1 <= s@.len() && p.0 < int_magnitude_bound(),
            None => dec_uint(s@, start as int) is None,
        },
{
    proof {
        lemma_pow10_18();
    }
    if start >= s.len() || !is_digit_exec(s[start]) {
        return None;
    }
    // measure the digit run
    let mut j: usize = start;
    while j < s.len() && is_digit_exec(s[j])
        invariant
            start <= j <= s@.len(),
            digit_run_len(s@, start as int) == (j - start) + digit_run_len(s@, j as int),
        decreases s@.len() - j,
    {
        j = j + 1;
    }
    assert(digit_run_len(s@, j as int) == 0);
    let run: usize = j - start;
    if run > 18 {
        return None;
    }
    // accumulate the value
    let mut acc: u64 = 0;
    let mut k: usize = start;
    while k < j
        invariant
            start <= k <= j <= s@.len(),
            run == j - start <= 18,
            digit_run_len(s@, start as int) == run,
            digit_run_len(s@, k as int) == j - k,
            acc < pow10((k - start) as nat),
            pow10(18) == 1_000_000_000_000_000_000,
            dec_digit_run(s@, start as int, 0) == dec_digit_run(s@, k as int, acc as int),
        decreases j - k,
    {
        assert(digit_run_len(s@, k as int) > 0);
        assert(is_digit(s@[k as int]));
        let d = char_digit_val(s[k]);
        proof {
            lemma_pow10_increases(((k - start) + 1) as nat, 18nat);
            assert(pow10(((k - start) + 1) as nat) == 10 * pow10((k - start) as nat));
        }
        acc = acc * 10 + d;
        k = k + 1;
    }
    assert(dec_digit_run(s@, k as int, acc as int) == (acc as int, k as int));
    proof {
        lemma_pow10_increases(run as nat, 18nat);
    }
    Some((acc, j))
}

/// Parse a possibly negative number, dropping any fractional part.
#[verifier::loop_isolation(false)]
pub fn parse_int(s: &Vec<char>, start: usize) -> (r: Option<(i64, usize)>)
    requires
        start <= s@.len(),
    ensures
        match r {
            Some(p) => dec_int(s@, start as int) == Some::<(int, int)>((p.0 as int, p.1 as int))
                && p.1 <= s@.len(),
            None => dec_int(s@, start as int) is None,
        },
{
    proof {
        lemma_pow10_18();
    }
    let core: Option<(i64, usize)> = if start < s.len() && s[start] == '-' {
        match parse_uint(s, start + 1) {
            Some((n, j)) => {
                let v: i64 = -(n as i64);
                Some((v, j))
            },
            None => None,
        }
    } else {
        match parse_uint(s, start) {
            Some((n, j)) => Some((n as i64, j)),
            None => None,
        }
    };
    let (v, j) = match core {
        Some(p) => p,
        None => {
            return None;
        },
    };
    if j < s.len() && s[j] == '.' && j + 1 < s.len() && is_digit_exec(s[j + 1]) {
        let mut k: usize = j + 1;
        while k < s.len() && is_digit_exec(s[k])
            invariant
                j + 1 <= k <= s@.len(),
                digit_run_len(s@, j + 1) == (k - (j + 1)) + digit_run_len(s@, k as int),
            decreases s@.len() - k,
        {
            k = k + 1;
        }
        proof {
            assert(digit_run_len(s@, k as int) == 0);
            assert(frac_end(s@, j as int) == k);
        }
        Some((v, k))
    } else {
        proof {
            assert(frac_end(s@, j as int) == j);
        }
        Some((v, j))
    }
}

/// Parse one atom of known shape.
pub fn parse_atom(s: &Vec<char>, start: usize, is_string: bool) -> (r: Option<(JsonAtom, usize)>)
    requires
        start <= s@.len(),
    ensures
        match r {
            Some(p) => dec_atom(s@, start as int, is_string) == Some::<(AtomModel, int)>(
                (p.0@, p.1 as int),
            ) && p.1 <= s@.len(),
            None => dec_atom(s@, start as int, is_string) is None,
        },
{
    if is_string {
        if start < s.len() && s[start] == '"' {
            match parse_string_body(s, start + 1) {
                Some((content, j)) => {
                    let text = chars_to_string(&content);
                    Some((JsonAtom::S(text), j))
                },
                None => None,
            }
        } else {
            None
        }
    } else {
        match parse_int(s, start) {
            Some((v, j)) => Some((JsonAtom::I(v), j)),
            None => None,
        }
    }
}

/// View of an executable expected-field list.
pub open spec fn kinds_view(v: Seq<(Vec<char>, bool)>) -> Seq<FieldKind> {
    v.map_values(|k: (Vec<char>, bool)| FieldKind { key: k.0@, is_string: k.1 })
}

/// View of a parsed atom list.
pub open spec fn atoms_view(v: Seq<JsonAtom>) -> Seq<AtomModel> {
    v.map_values(|a: JsonAtom| a@)
}

/// Does `"key":` occur at `i`?
#[verifier::loop_isolation(false)]
fn check_key_at(s: &Vec<char>, i: usize, key: &Vec<char>) -> (b: bool)
    ensures
        b == lit_at(s@, i as int, enc_key(key@)),
{
    let ghost lit = enc_key(key@);
    let sl = s.len();
    let kl = key.len();
    assert(lit.len() == kl + 3);
    if kl > sl {
        assert(!lit_at(s@, i as int, lit));
        return false;
    }
    if sl - kl < 3 {
        assert(!lit_at(s@, i as int, lit));
        return false;
    }
    if i > sl - kl - 3 {
        assert(!lit_at(s@, i as int, lit));
        return false;
    }
    assert(i + kl + 3 <= s@.len());
    if s[i] != '"' {
        proof {
            lemma_enc_key_index(key@, 0);
        }
        assert(!lit_at(s@, i as int, lit)) by {
            if lit_at(s@, i as int, lit) {
                assert(s@.subrange(i as int, i + lit.len() as int)[0] == s@[i as int]);
            }
        }
        return false;
    }
    let mut j: usize = 0;
    while j < kl
        invariant
            0 <= j <= kl,
            kl == key@.len(),
            sl == s@.len(),
            i + kl + 3 <= s@.len(),
            s@[i as int] == '"',
            forall|m: int| 0 <= m < j ==> s@[i + 1 + m] == key@[m],
        decreases kl - j,
    {
        if s[i + 1 + j] != key[j] {
            proof {
                lemma_enc_key_index(key@, 1 + j as int);
            }
            assert(!lit_at(s@, i as int, lit)) by {
                if lit_at(s@, i as int, lit) {
                    let sub = s@.subrange(i as int, i as int + lit.len());
                    assert(sub == lit);
                    assert(sub[1 + j as int] == s@[i as int + (1 + j as int)]);
                    assert(lit[1 + j as int] == key@[j as int]);
                    assert(s@[i as int + 1 + j as int] != key@[j as int]);
                }
            }
            return false;
        }
        j = j + 1;
    }
    if s[i + 1 + kl] != '"' {
        proof {
            lemma_enc_key_index(key@, 1 + kl as int);
        }
        assert(!lit_at(s@, i as int, lit)) by {
            if lit_at(s@, i as int, lit) {
                assert(s@.subrange(i as int, i + lit.len() as int)[1 + kl as int] == s@[i + 1
                    + kl as int]);
            }
        }
        return false;
    }
    if s[i + 2 + kl] != ':' {
        proof {
            lemma_enc_key_index(key@, 2 + kl as int);
        }
        assert(!lit_at(s@, i as int, lit)) by {
            if lit_at(s@, i as int, lit) {
                assert(s@.subrange(i as int, i + lit.len() as int)[2 + kl as int] == s@[i + 2
                    + kl as int]);
            }
        }
        return false;
    }
    assert(s@.subrange(i as int, i + lit.len() as int) =~= lit) by {
        assert forall|m: int| 0 <= m < lit.len() implies s@.subrange(
            i as int,
            i + lit.len() as int,
        )[m] == lit[m] by {
            lemma_enc_key_index(key@, m);
            if m == 0 {
            } else if m < 1 + kl {
                assert(s@[i + 1 + (m - 1)] == key@[m - 1]);
            } else if m == 1 + kl {
            } else {
            }
        }
    }
    true
}

/// The character of `enc_key(k)` at each position.
pub proof fn lemma_enc_key_index(k: Seq<char>, m: int)
    requires
        0 <= m < enc_key(k).len(),
    ensures
        enc_key(k)[m] == (if m == 0 {
            '"'
        } else if m < 1 + k.len() {
            k[m - 1]
        } else if m == 1 + k.len() {
            '"'
        } else {
            ':'
        }),
{
    let a = seq!['"'];
    let bc = seq!['"', ':'];
    assert(enc_key(k) == (a + k) + bc);
    if m == 0 {
        assert(((a + k) + bc)[m] == (a + k)[m]);
        assert((a + k)[m] == a[0]);
    } else if m < 1 + k.len() {
        assert(((a + k) + bc)[m] == (a + k)[m]);
        assert((a + k)[m] == k[m - 1]);
    } else {
        assert(((a + k) + bc)[m] == bc[m - (1 + k.len())]);
    }
}

/// Parse the expected fields from `kidx` on, mirroring `dec_fields`.
fn parse_fields(
    s: &Vec<char>,
    start: usize,
    kinds: &Vec<(Vec<char>, bool)>,
    kidx: usize,
    acc: Vec<JsonAtom>,
) -> (r: Option<(Vec<JsonAtom>, usize)>)
    requires
        start <= s@.len(),
        kidx <= kinds@.len(),
    ensures
        match r {
            Some(p) => dec_fields(
                s@,
                start as int,
                kinds_view(kinds@).skip(kidx as int),
                atoms_view(acc@),
            ) == Some::<(Seq<AtomModel>, int)>((atoms_view(p.0@), p.1 as int)) && p.1 <= s@.len(),
            None => dec_fields(
                s@,
                start as int,
                kinds_view(kinds@).skip(kidx as int),
                atoms_view(acc@),
            ) is None,
        },
    decreases kinds@.len() - kidx,
{
    let ghost ks = kinds_view(kinds@).skip(kidx as int);
    if kidx >= kinds.len() {
        assert(ks =~= Seq::<FieldKind>::empty());
        return Some((acc, start));
    }
    assert(ks[0] == kinds_view(kinds@)[kidx as int]);
    let kf = &kinds[kidx];
    if !check_key_at(s, start, &kf.0) {
        return None;
    }
    let sl = s.len();
    assert(start + enc_key(kf.0@).len() <= s@.len());
    assert(enc_key(kf.0@).len() == kf.0@.len() + 3);
    let i2 = start + (kf.0.len() + 3);
    match parse_atom(s, i2, kf.1) {
        None => None,
        Some((v, i3)) => {
            let mut acc2 = acc;
            acc2.push(v);
            assert(atoms_view(acc2@) =~= atoms_view(acc@).push(v@));
            assert(ks.drop_first() =~= kinds_view(kinds@).skip(kidx + 1));
            if kidx + 1 >= kinds.len() {
                parse_fields(s, i3, kinds, kidx + 1, acc2)
            } else {
                if i3 < s.len() && s[i3] == ',' {
                    parse_fields(s, i3 + 1, kinds, kidx + 1, acc2)
                } else {
                    None
                }
            }
        },
    }
}

/// Parse a whole canonical object against the expected field shapes.
pub fn parse_obj(s: &Vec<char>, kinds: &Vec<(Vec<char>, bool)>) -> (r: Option<Vec<JsonAtom>>)
    ensures
        match r {
            Some(vs) => dec_obj(s@, kinds_view(kinds@)) == Some(atoms_view(vs@)),
            None => dec_obj(s@, kinds_view(kinds@)) is None,
        },
{
    if s.len() < 2 || s[0] != '{' {
        return None;
    }
    let empty_acc: Vec<JsonAtom> = Vec::new();
    assert(atoms_view(empty_acc@) =~= Seq::<AtomModel>::empty());
    assert(kinds_view(kinds@).skip(0) =~= kinds_view(kinds@));
    match parse_fields(s, 1, kinds, 0, empty_acc) {
        None => None,
        Some((vs, j)) => {
            if j == s.len() - 1 && s[j] == '}' {
                Some(vs)
            } else {
                None
            }
        },
    }
}

} // verus!
