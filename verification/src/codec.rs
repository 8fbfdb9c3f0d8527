//! The wire format of the keyed backend: schemas and whole-table row
//! collections are stored in the external key-value primitive as text blobs.
//!
//! The format is built from two pieces: a number is its decimal digits least
//! significant first, closed by `;` (zero is a bare `;`), and a character
//! block is its length followed by the characters themselves.  Everything
//! else is tagged composition of those two.  Encoding is specified by total
//! spec functions, decoding by partial ones, and the decoders are proved to
//! invert the encoders exactly.
use vstd::prelude::*;

use crate::entity::ColumnDef;
use crate::entity::ColumnDefV;
use crate::entity::ColumnOption;
use crate::entity::ColumnOptionV;
use crate::entity::DataType;
use crate::entity::Row;
use crate::entity::Schema;
use crate::entity::SchemaV;
use crate::entity::Value;
use crate::entity::ValueV;

verus! {

/// Whether a character is a decimal digit.
pub open spec fn is_digit(c: char) -> bool {
    '0' <= c && c <= '9'
}

/// The value of a decimal digit character.
pub open spec fn digit_val(c: char) -> int {
    c as int - 48
}

/// The character of a decimal digit value.
pub open spec fn digit_char(d: int) -> char {
    if d == 0 {
        '0'
    } else if d == 1 {
        '1'
    } else if d == 2 {
        '2'
    } else if d == 3 {
        '3'
    } else if d == 4 {
        '4'
    } else if d == 5 {
        '5'
    } else if d == 6 {
        '6'
    } else if d == 7 {
        '7'
    } else if d == 8 {
        '8'
    } else {
        '9'
    }
}

/// The digits of a number, least significant first; zero has none.
pub open spec fn enc_digits(n: nat) -> Seq<char>
    decreases n,
{
    if n == 0 {
        Seq::empty()
    } else {
        seq![digit_char((n % 10) as int)] + enc_digits(n / 10)
    }
}

/// A number on the wire: its digits closed by `;`.
pub open spec fn enc_num(n: u64) -> Seq<char> {
    enc_digits(n as nat) + seq![';']
}

/// Reads a number at position `i`: digits up to a `;`, rejecting anything
/// else and any value that does not fit in 64 bits.  Returns the value and
/// the position after the `;`.
pub open spec fn dec_num(s: Seq<char>, i: int) -> Option<(u64, int)>
    decreases s.len() - i,
{
    if i < 0 || i >= s.len() {
        None
    } else if s[i] == ';' {
        Some((0u64, i + 1))
    } else if is_digit(s[i]) {
        match dec_num(s, i + 1) {
            None => None,
            Some((m, j)) => {
                let val = digit_val(s[i]) + 10 * (m as int);
                if val > u64::MAX {
                    None
                } else {
                    Some((val as u64, j))
                }
            },
        }
    } else {
        None
    }
}

/// Every digit the encoder emits is a digit character, and `;` is not one.
proof fn lemma_digit_char_val(d: int)
    requires
        0 <= d < 10,
    ensures
        is_digit(digit_char(d)),
        digit_val(digit_char(d)) == d,
        digit_char(d) != ';',
{
}

/// Splits a subrange equality over a concatenation.
pub proof fn lemma_subrange_concat(s: Seq<char>, i: int, a: Seq<char>, b: Seq<char>)
    requires
        0 <= i,
        i + a.len() + b.len() <= s.len(),
        s.subrange(i, i + a.len() + b.len()) == a + b,
    ensures
        s.subrange(i, i + a.len()) == a,
        s.subrange(i + a.len(), i + a.len() + b.len()) == b,
{
    let ab = s.subrange(i, i + a.len() + b.len());
    assert forall|k: int| 0 <= k < a.len() implies s.subrange(i, i + a.len())[k] == a[k] by {
        assert(ab[k] == (a + b)[k]);
    }
    assert(s.subrange(i, i + a.len()) =~= a);
    assert forall|k: int|
        0 <= k < b.len() implies s.subrange(i + a.len(), i + a.len() + b.len())[k] == b[k] by {
        assert(ab[a.len() + k] == (a + b)[a.len() + k]);
    }
    assert(s.subrange(i + a.len(), i + a.len() + b.len()) =~= b);
}

/// A blob whose two subranges are `a` and `b` is their concatenation.
pub proof fn lemma_seq_parts(s: Seq<char>, a: Seq<char>, b: Seq<char>)
    requires
        s.len() == a.len() + b.len(),
        s.subrange(0, a.len() as int) == a,
        s.subrange(a.len() as int, s.len() as int) == b,
    ensures
        s == a + b,
{
    assert forall|k: int| 0 <= k < s.len() implies s[k] == (a + b)[k] by {
        if k < a.len() {
            assert(s.subrange(0, a.len() as int)[k] == s[k]);
        } else {
            assert(s.subrange(a.len() as int, s.len() as int)[k - a.len()] == s[k]);
        }
    }
    assert(s =~= a + b);
}

/// Decoding inverts encoding for numbers: wherever a blob carries
/// `enc_num(n)` at position `i`, `dec_num` returns `n` and stops right
/// after it.
pub proof fn lemma_dec_enc_num(s: Seq<char>, i: int, n: u64)
    requires
        0 <= i,
        i + enc_num(n).len() <= s.len(),
        s.subrange(i, i + enc_num(n).len()) == enc_num(n),
    ensures
        dec_num(s, i) == Some((n, i + enc_num(n).len())),
    decreases n,
{
    let e = enc_num(n);
    if n == 0 {
        assert(e =~= seq![';']);
        assert(s[i] == e[0]);
    } else {
        let d = (n as nat % 10) as int;
        lemma_digit_char_val(d);
        let m = n / 10;
        assert(enc_digits(n as nat) == seq![digit_char(d)] + enc_digits(n as nat / 10));
        assert(e =~= seq![digit_char(d)] + enc_num(m)) by {
            assert(e == (seq![digit_char(d)] + enc_digits(n as nat / 10)) + seq![';']);
            assert(n as nat / 10 == (n / 10) as nat);
        }
        lemma_subrange_concat(s, i, seq![digit_char(d)], enc_num(m));
        assert(s[i] == digit_char(d)) by {
            assert(s.subrange(i, i + 1)[0] == s[i]);
        }
        assert(m < n) by {
            assert(n as nat / 10 < n as nat) by (nonlinear_arith)
                requires
                    n > 0,
            ;
        }
        lemma_dec_enc_num(s, i + 1, m);
        assert(d + 10 * (m as int) == n) by {
            assert(n as int == 10 * (n as int / 10) + n as int % 10) by (nonlinear_arith);
        }
    }
}

/// A character block on the wire: its length, then the characters raw.
pub open spec fn enc_chars(t: Seq<char>) -> Seq<char> {
    enc_num(t.len() as u64) + t
}

/// Reads a character block at position `i`.
pub open spec fn dec_chars(s: Seq<char>, i: int) -> Option<(Seq<char>, int)> {
    match dec_num(s, i) {
        None => None,
        Some((n, j)) => if j + n <= s.len() {
            Some((s.subrange(j, j + n as int), j + n as int))
        } else {
            None
        },
    }
}

/// Decoding inverts encoding for character blocks.
pub proof fn lemma_dec_enc_chars(s: Seq<char>, i: int, t: Seq<char>)
    requires
        0 <= i,
        t.len() <= u64::MAX,
        i + enc_chars(t).len() <= s.len(),
        s.subrange(i, i + enc_chars(t).len()) == enc_chars(t),
    ensures
        dec_chars(s, i) == Some((t, i + enc_chars(t).len())),
{
    let lenc = enc_num(t.len() as u64);
    lemma_subrange_concat(s, i, lenc, t);
    lemma_dec_enc_num(s, i, t.len() as u64);
}

/// Appends the wire form of a number to the output.
pub fn write_num(out: &mut Vec<char>, n: u64)
    ensures
        final(out)@ == old(out)@ + enc_num(n),
{
    let ghost base = out@;
    let mut m = n;
    while m > 0
        invariant
            enc_digits(n as nat) == out@.subrange(base.len() as int, out@.len() as int)
                + enc_digits(m as nat),
            out@.len() >= base.len(),
            out@.subrange(0, base.len() as int) == base,
        decreases m,
    {
        let d = m % 10;
        let c: char = if d == 0 {
            '0'
        } else if d == 1 {
            '1'
        } else if d == 2 {
            '2'
        } else if d == 3 {
            '3'
        } else if d == 4 {
            '4'
        } else if d == 5 {
            '5'
        } else if d == 6 {
            '6'
        } else if d == 7 {
            '7'
        } else if d == 8 {
            '8'
        } else {
            '9'
        };
        proof {
            assert(c == digit_char(d as int));
            assert(enc_digits(m as nat) == seq![digit_char(d as int)] + enc_digits(m as nat / 10));
        }
        let ghost before = out@;
        out.push(c);
        m = m / 10;
        proof {
            assert(out@.subrange(0, base.len() as int) =~= base);
            assert(out@.subrange(base.len() as int, out@.len() as int) =~= before.subrange(
                base.len() as int,
                before.len() as int,
            ) + seq![c]);
            assert(before.subrange(base.len() as int, before.len() as int) + (seq![c] + enc_digits(
                m as nat,
            )) =~= (before.subrange(base.len() as int, before.len() as int) + seq![c]) + enc_digits(
                m as nat,
            ));
        }
    }
    let ghost before = out@;
    out.push(';');
    proof {
        assert(enc_digits(m as nat) =~= Seq::<char>::empty());
        assert(before.subrange(base.len() as int, before.len() as int) =~= enc_digits(n as nat));
        assert(out@ =~= base + enc_num(n));
    }
}

/// Reads a number from the blob at position `i`, as `dec_num` does.
pub fn read_num(s: &Vec<char>, i: usize) -> (r: Option<(u64, usize)>)
    ensures
        match r {
            Some(p) => dec_num(s@, i as int) == Some((p.0, p.1 as int)) && i < p.1 <= s@.len(),
            None => dec_num(s@, i as int) is None,
        },
    decreases s@.len() - i,
{
    if i >= s.len() {
        return None;
    }
    let c = s[i];
    if c == ';' {
        return Some((0, i + 1));
    }
    if !('0' <= c && c <= '9') {
        return None;
    }
    let d = (c as u32 as u64) - 48;
    match read_num(s, i + 1) {
        None => None,
        Some((m, j)) => {
            if m > (u64::MAX - d) / 10 {
                proof {
                    assert(digit_val(c) == d as int);
                    assert(digit_val(c) + 10 * (m as int) > u64::MAX) by (nonlinear_arith)
                        requires
                            m > (u64::MAX - d) / 10,
                            d == digit_val(c),
                            0 <= d < 10,
                    ;
                }
                None
            } else {
                proof {
                    assert(digit_val(c) == d as int);
                    assert(digit_val(c) + 10 * (m as int) <= u64::MAX) by (nonlinear_arith)
                        requires
                            m <= (u64::MAX - d) / 10,
                            d == digit_val(c),
                            0 <= d < 10,
                    ;
                }
                Some((d + 10 * m, j))
            }
        },
    }
}

/// Reads a character block from the blob at position `i`, as `dec_chars`
/// does.
pub fn read_chars(s: &Vec<char>, i: usize) -> (r: Option<(Vec<char>, usize)>)
    ensures
        match r {
            Some(p) => dec_chars(s@, i as int) == Some((p.0@, p.1 as int)) && i < p.1 <= s@.len(),
            None => dec_chars(s@, i as int) is None,
        },
{
    let (n, j) = match read_num(s, i) {
        Some(p) => p,
        None => {
            return None;
        },
    };
    let len = s.len();
    if n > (len - j) as u64 {
        proof {
            assert(j + n > s@.len());
        }
        return None;
    }
    let end = j + (n as usize);
    let mut t: Vec<char> = Vec::new();
    let mut k = j;
    while k < end
        invariant
            j <= k <= end <= s@.len(),
            t@.len() == k - j,
            t@ == s@.subrange(j as int, k as int),
        decreases end - k,
    {
        t.push(s[k]);
        proof {
            assert(t@ =~= s@.subrange(j as int, k + 1));
        }
        k += 1;
    }
    proof {
        assert(t@ == s@.subrange(j as int, j + n as int));
    }
    Some((t, end))
}

/// Relies on `String`'s `FromIterator<char>`: collecting characters yields
/// the string of exactly those characters in order.
#[verifier::external_body]
pub fn string_of_chars(v: &Vec<char>) -> (r: String)
    ensures
        r@ == v@,
{
    v.iter().collect()
}

/// Builds the character sequence of a string slice.
pub fn chars_of_str(t: &str) -> (r: Vec<char>)
    ensures
        r@ == t@,
{
    let n = t.unicode_len();
    let mut out: Vec<char> = Vec::new();
    let mut i: usize = 0;
    while i < n
        invariant
            n == t@.len(),
            i <= n,
            out@ == t@.subrange(0, i as int),
        decreases n - i,
    {
        out.push(t.get_char(i));
        proof {
            assert(out@ =~= t@.subrange(0, i + 1));
        }
        i += 1;
    }
    proof {
        assert(out@ =~= t@);
    }
    out
}

/// Appends the wire form of a character block to the output.
pub fn write_chars(out: &mut Vec<char>, t: &str)
    ensures
        final(out)@ == old(out)@ + enc_chars(t@),
        t@.len() <= u64::MAX,
{
    let n = t.unicode_len();
    write_num(out, n as u64);
    let ghost mid = out@;
    let mut i: usize = 0;
    while i < n
        invariant
            n == t@.len(),
            i <= n,
            out@ == mid + t@.subrange(0, i as int),
        decreases n - i,
    {
        out.push(t.get_char(i));
        proof {
            assert(out@ =~= mid + t@.subrange(0, i + 1));
        }
        i += 1;
    }
    proof {
        assert(out@ =~= old(out)@ + enc_chars(t@));
    }
}

/// The tag character of a boolean.
pub open spec fn bool_char(b: bool) -> char {
    if b {
        '1'
    } else {
        '0'
    }
}

/// A value on the wire: a tag character and the payload of the variant.
pub open spec fn enc_value(v: ValueV) -> Seq<char> {
    match v {
        ValueV::Bool(b) => seq!['B', bool_char(b)],
        ValueV::I64(n) => seq!['I'] + enc_num(n as u64),
        ValueV::Str(t) => seq!['S'] + enc_chars(t),
        ValueV::OptBool(Some(b)) => seq!['b', bool_char(b)],
        ValueV::OptBool(None) => seq!['b', 'N'],
        ValueV::OptI64(Some(n)) => seq!['i'] + enc_num(n as u64),
        ValueV::OptI64(None) => seq!['i', 'N'],
        ValueV::OptStr(Some(t)) => seq!['s'] + enc_chars(t),
        ValueV::OptStr(None) => seq!['s', 'N'],
        ValueV::Empty => seq!['E'],
    }
}

/// Whether a value's strings fit the wire format's length field.
pub open spec fn value_wf(v: ValueV) -> bool {
    match v {
        ValueV::Str(t) => t.len() <= u64::MAX,
        ValueV::OptStr(Some(t)) => t.len() <= u64::MAX,
        _ => true,
    }
}

/// Reads a value at position `i`.
pub open spec fn dec_value(s: Seq<char>, i: int) -> Option<(ValueV, int)> {
    if i < 0 || i >= s.len() {
        None
    } else if s[i] == 'B' {
        if i + 1 < s.len() && s[i + 1] == '1' {
            Some((ValueV::Bool(true), i + 2))
        } else if i + 1 < s.len() && s[i + 1] == '0' {
            Some((ValueV::Bool(false), i + 2))
        } else {
            None
        }
    } else if s[i] == 'I' {
        match dec_num(s, i + 1) {
            Some((n, j)) => Some((ValueV::I64(n as i64), j)),
            None => None,
        }
    } else if s[i] == 'S' {
        match dec_chars(s, i + 1) {
            Some((t, j)) => Some((ValueV::Str(t), j)),
            None => None,
        }
    } else if s[i] == 'b' {
        if i + 1 < s.len() && s[i + 1] == 'N' {
            Some((ValueV::OptBool(None), i + 2))
        } else if i + 1 < s.len() && s[i + 1] == '1' {
            Some((ValueV::OptBool(Some(true)), i + 2))
        } else if i + 1 < s.len() && s[i + 1] == '0' {
            Some((ValueV::OptBool(Some(false)), i + 2))
        } else {
            None
        }
    } else if s[i] == 'i' {
        if i + 1 < s.len() && s[i + 1] == 'N' {
            Some((ValueV::OptI64(None), i + 2))
        } else {
            match dec_num(s, i + 1) {
                Some((n, j)) => Some((ValueV::OptI64(Some(n as i64)), j)),
                None => None,
            }
        }
    } else if s[i] == 's' {
        if i + 1 < s.len() && s[i + 1] == 'N' {
            Some((ValueV::OptStr(None), i + 2))
        } else {
            match dec_chars(s, i + 1) {
                Some((t, j)) => Some((ValueV::OptStr(Some(t)), j)),
                None => None,
            }
        }
    } else if s[i] == 'E' {
        Some((ValueV::Empty, i + 1))
    } else {
        None
    }
}

/// The characters of a subrange are the characters of the blob.
proof fn lemma_subrange_index(s: Seq<char>, i: int, e: Seq<char>, k: int)
    requires
        0 <= i,
        0 <= k < e.len(),
        i + e.len() <= s.len(),
        s.subrange(i, i + e.len()) == e,
    ensures
        s[i + k] == e[k],
{
    assert(s.subrange(i, i + e.len())[k] == s[i + k]);
}

/// Decoding inverts encoding for values.
pub proof fn lemma_dec_enc_value(s: Seq<char>, i: int, v: ValueV)
    requires
        0 <= i,
        value_wf(v),
        i + enc_value(v).len() <= s.len(),
        s.subrange(i, i + enc_value(v).len()) == enc_value(v),
    ensures
        dec_value(s, i) == Some((v, i + enc_value(v).len())),
{
    let e = enc_value(v);
    lemma_subrange_index(s, i, e, 0);
    assert(s[i] == e[0]);
    if e.len() >= 2 {
        lemma_subrange_index(s, i, e, 1);
        assert(s[i + 1] == e[1]);
    }
    match v {
        ValueV::Bool(b) => {},
        ValueV::I64(n) => {
            assert(e == seq!['I'] + enc_num(n as u64));
            lemma_subrange_concat(s, i, seq!['I'], enc_num(n as u64));
            lemma_dec_enc_num(s, i + 1, n as u64);
            assert(s[i] == 'I');
            assert(!is_digit('I') && 'I' != ';');
            assert(((n as u64) as i64) == n) by (bit_vector);
        },
        ValueV::Str(t) => {
            assert(e == seq!['S'] + enc_chars(t));
            lemma_subrange_concat(s, i, seq!['S'], enc_chars(t));
            lemma_dec_enc_chars(s, i + 1, t);
        },
        ValueV::OptBool(o) => {},
        ValueV::OptI64(o) => {
            match o {
                Some(n) => {
                    assert(e == seq!['i'] + enc_num(n as u64));
                    lemma_subrange_concat(s, i, seq!['i'], enc_num(n as u64));
                    lemma_dec_enc_num(s, i + 1, n as u64);
                    assert(s[i + 1] != 'N') by {
                        let d = enc_num(n as u64);
                        assert(s[i + 1] == d[0]);
                        if n as u64 == 0 {
                            assert(d[0] == ';');
                        } else {
                            lemma_digit_char_val(((n as u64) as nat % 10) as int);
                            assert(d[0] == digit_char(((n as u64) as nat % 10) as int));
                        }
                    }
                    assert(((n as u64) as i64) == n) by (bit_vector);
                },
                None => {},
            }
        },
        ValueV::OptStr(o) => {
            match o {
                Some(t) => {
                    assert(e == seq!['s'] + enc_chars(t));
                    lemma_subrange_concat(s, i, seq!['s'], enc_chars(t));
                    lemma_dec_enc_chars(s, i + 1, t);
                    assert(s[i + 1] != 'N') by {
                        let d = enc_chars(t);
                        assert(s[i + 1] == d[0]);
                        assert(d[0] == enc_num(t.len() as u64)[0]);
                        if t.len() as u64 == 0 {
                            assert(d[0] == ';');
                        } else {
                            lemma_digit_char_val((t.len() as u64 as nat % 10) as int);
                        }
                    }
                },
                None => {},
            }
        },
        ValueV::Empty => {},
    }
}

/// Appends the wire form of a value to the output.
pub fn write_value(out: &mut Vec<char>, v: &Value)
    ensures
        final(out)@ == old(out)@ + enc_value(v@),
        value_wf(v@),
{
    match v {
        Value::Bool(b) => {
            out.push('B');
            out.push(if *b { '1' } else { '0' });
            proof {
                assert(out@ =~= old(out)@ + enc_value(v@));
            }
        },
        Value::I64(n) => {
            out.push('I');
            let ghost mid = out@;
            write_num(out, *n as u64);
            proof {
                assert(out@ =~= old(out)@ + enc_value(v@));
            }
        },
        Value::Str(t) => {
            out.push('S');
            write_chars(out, t.as_str());
            proof {
                assert(out@ =~= old(out)@ + enc_value(v@));
            }
        },
        Value::OptBool(o) => {
            out.push('b');
            out.push(
                match o {
                    Some(true) => '1',
                    Some(false) => '0',
                    None => 'N',
                },
            );
            proof {
                assert(out@ =~= old(out)@ + enc_value(v@));
            }
        },
        Value::OptI64(o) => {
            out.push('i');
            match o {
                Some(n) => {
                    write_num(out, *n as u64);
                },
                None => {
                    out.push('N');
                },
            }
            proof {
                assert(out@ =~= old(out)@ + enc_value(v@));
            }
        },
        Value::OptStr(o) => {
            out.push('s');
            match o {
                Some(t) => {
                    write_chars(out, t.as_str());
                },
                None => {
                    out.push('N');
                },
            }
            proof {
                assert(out@ =~= old(out)@ + enc_value(v@));
            }
        },
        Value::Empty => {
            out.push('E');
            proof {
                assert(out@ =~= old(out)@ + enc_value(v@));
            }
        },
    }
}

/// Reads a value from the blob at position `i`, as `dec_value` does.
pub fn read_value(s: &Vec<char>, i: usize) -> (r: Option<(Value, usize)>)
    ensures
        match r {
            Some(p) => dec_value(s@, i as int) == Some((p.0@, p.1 as int)) && i < p.1 <= s@.len(),
            None => dec_value(s@, i as int) is None,
        },
{
    if i >= s.len() {
        return None;
    }
    let c = s[i];
    if c == 'B' {
        if i + 1 < s.len() && s[i + 1] == '1' {
            Some((Value::Bool(true), i + 2))
        } else if i + 1 < s.len() && s[i + 1] == '0' {
            Some((Value::Bool(false), i + 2))
        } else {
            None
        }
    } else if c == 'I' {
        match read_num(s, i + 1) {
            Some((n, j)) => Some((Value::I64(n as i64), j)),
            None => None,
        }
    } else if c == 'S' {
        match read_chars(s, i + 1) {
            Some((t, j)) => Some((Value::Str(string_of_chars(&t)), j)),
            None => None,
        }
    } else if c == 'b' {
        if i + 1 < s.len() && s[i + 1] == 'N' {
            Some((Value::OptBool(None), i + 2))
        } else if i + 1 < s.len() && s[i + 1] == '1' {
            Some((Value::OptBool(Some(true)), i + 2))
        } else if i + 1 < s.len() && s[i + 1] == '0' {
            Some((Value::OptBool(Some(false)), i + 2))
        } else {
            None
        }
    } else if c == 'i' {
        if i + 1 < s.len() && s[i + 1] == 'N' {
            Some((Value::OptI64(None), i + 2))
        } else {
            match read_num(s, i + 1) {
                Some((n, j)) => Some((Value::OptI64(Some(n as i64)), j)),
                None => None,
            }
        }
    } else if c == 's' {
        if i + 1 < s.len() && s[i + 1] == 'N' {
            Some((Value::OptStr(None), i + 2))
        } else {
            match read_chars(s, i + 1) {
                Some((t, j)) => Some((Value::OptStr(Some(string_of_chars(&t))), j)),
                None => None,
            }
        }
    } else if c == 'E' {
        Some((Value::Empty, i + 1))
    } else {
        None
    }
}

/// A row on the wire: its length, then each value in order.
pub open spec fn enc_values(vs: Seq<ValueV>) -> Seq<char>
    decreases vs.len(),
{
    if vs.len() == 0 {
        Seq::empty()
    } else {
        enc_value(vs[0]) + enc_values(vs.drop_first())
    }
}

/// Whether a row fits the wire format's length fields.
pub open spec fn row_wf(r: Seq<ValueV>) -> bool {
    r.len() <= u64::MAX && (forall|k: int| 0 <= k < r.len() ==> value_wf(#[trigger] r[k]))
}

/// A row on the wire: its value count, then the values.
pub open spec fn enc_row(r: Seq<ValueV>) -> Seq<char> {
    enc_num(r.len() as u64) + enc_values(r)
}

/// Reads `n` values in sequence starting at position `i`.
pub open spec fn dec_values(s: Seq<char>, i: int, n: nat) -> Option<(Seq<ValueV>, int)>
    decreases n,
{
    if n == 0 {
        Some((Seq::empty(), i))
    } else {
        match dec_value(s, i) {
            None => None,
            Some((v, j)) => match dec_values(s, j, (n - 1) as nat) {
                None => None,
                Some((vs, k)) => Some((seq![v] + vs, k)),
            },
        }
    }
}

/// Reads a row at position `i`.
pub open spec fn dec_row(s: Seq<char>, i: int) -> Option<(Seq<ValueV>, int)> {
    match dec_num(s, i) {
        None => None,
        Some((n, j)) => dec_values(s, j, n as nat),
    }
}

/// Decoding inverts encoding for value sequences.
pub proof fn lemma_dec_enc_values(s: Seq<char>, i: int, vs: Seq<ValueV>)
    requires
        0 <= i,
        forall|k: int| 0 <= k < vs.len() ==> value_wf(#[trigger] vs[k]),
        i + enc_values(vs).len() <= s.len(),
        s.subrange(i, i + enc_values(vs).len()) == enc_values(vs),
    ensures
        dec_values(s, i, vs.len()) == Some((vs, i + enc_values(vs).len())),
    decreases vs.len(),
{
    if vs.len() > 0 {
        let head = enc_value(vs[0]);
        let tail = vs.drop_first();
        assert(enc_values(vs) == head + enc_values(tail));
        lemma_subrange_concat(s, i, head, enc_values(tail));
        lemma_dec_enc_value(s, i, vs[0]);
        assert(forall|k: int| 0 <= k < tail.len() ==> value_wf(#[trigger] tail[k])) by {
            assert(forall|k: int| 0 <= k < tail.len() ==> tail[k] == vs[k + 1]);
        }
        lemma_dec_enc_values(s, i + head.len(), tail);
        assert(seq![vs[0]] + tail =~= vs);
    }
}

/// Decoding inverts encoding for rows.
pub proof fn lemma_dec_enc_row(s: Seq<char>, i: int, r: Seq<ValueV>)
    requires
        0 <= i,
        row_wf(r),
        i + enc_row(r).len() <= s.len(),
        s.subrange(i, i + enc_row(r).len()) == enc_row(r),
    ensures
        dec_row(s, i) == Some((r, i + enc_row(r).len())),
{
    let lenc = enc_num(r.len() as u64);
    lemma_subrange_concat(s, i, lenc, enc_values(r));
    lemma_dec_enc_num(s, i, r.len() as u64);
    lemma_dec_enc_values(s, i + lenc.len(), r);
}

/// An (id, row) pair on the wire: the id, then the row.
pub open spec fn enc_entry(e: (u64, Seq<ValueV>)) -> Seq<char> {
    enc_num(e.0) + enc_row(e.1)
}

/// A whole table on the wire: its entry count, then each (id, row) pair in
/// storage order.
pub open spec fn enc_entries(es: Seq<(u64, Seq<ValueV>)>) -> Seq<char>
    decreases es.len(),
{
    if es.len() == 0 {
        Seq::empty()
    } else {
        enc_entry(es[0]) + enc_entries(es.drop_first())
    }
}

/// Whether a table fits the wire format's length fields.
pub open spec fn table_wf(es: Seq<(u64, Seq<ValueV>)>) -> bool {
    es.len() <= u64::MAX && (forall|k: int| 0 <= k < es.len() ==> row_wf(#[trigger] es[k].1))
}

/// A whole table on the wire.
pub open spec fn enc_table(es: Seq<(u64, Seq<ValueV>)>) -> Seq<char> {
    enc_num(es.len() as u64) + enc_entries(es)
}

/// Reads an (id, row) pair at position `i`.
pub open spec fn dec_entry(s: Seq<char>, i: int) -> Option<((u64, Seq<ValueV>), int)> {
    match dec_num(s, i) {
        None => None,
        Some((id, j)) => match dec_row(s, j) {
            None => None,
            Some((r, k)) => Some(((id, r), k)),
        },
    }
}

/// Reads `n` (id, row) pairs in sequence starting at position `i`.
pub open spec fn dec_entries(s: Seq<char>, i: int, n: nat) -> Option<
    (Seq<(u64, Seq<ValueV>)>, int),
>
    decreases n,
{
    if n == 0 {
        Some((Seq::empty(), i))
    } else {
        match dec_entry(s, i) {
            None => None,
            Some((e, j)) => match dec_entries(s, j, (n - 1) as nat) {
                None => None,
                Some((es, k)) => Some((seq![e] + es, k)),
            },
        }
    }
}

/// Reads a whole table at position `i`.
pub open spec fn dec_table(s: Seq<char>, i: int) -> Option<(Seq<(u64, Seq<ValueV>)>, int)> {
    match dec_num(s, i) {
        None => None,
        Some((n, j)) => dec_entries(s, j, n as nat),
    }
}

/// Reads a whole table blob: the table, which must fill the blob exactly.
pub open spec fn dec_table_blob(s: Seq<char>) -> Option<Seq<(u64, Seq<ValueV>)>> {
    match dec_table(s, 0) {
        None => None,
        Some((es, j)) => if j == s.len() {
            Some(es)
        } else {
            None
        },
    }
}

/// Decoding inverts encoding for (id, row) pairs.
pub proof fn lemma_dec_enc_entry(s: Seq<char>, i: int, e: (u64, Seq<ValueV>))
    requires
        0 <= i,
        row_wf(e.1),
        i + enc_entry(e).len() <= s.len(),
        s.subrange(i, i + enc_entry(e).len()) == enc_entry(e),
    ensures
        dec_entry(s, i) == Some((e, i + enc_entry(e).len())),
{
    let idc = enc_num(e.0);
    lemma_subrange_concat(s, i, idc, enc_row(e.1));
    lemma_dec_enc_num(s, i, e.0);
    lemma_dec_enc_row(s, i + idc.len(), e.1);
}

/// Decoding inverts encoding for entry sequences.
pub proof fn lemma_dec_enc_entries(s: Seq<char>, i: int, es: Seq<(u64, Seq<ValueV>)>)
    requires
        0 <= i,
        forall|k: int| 0 <= k < es.len() ==> row_wf(#[trigger] es[k].1),
        i + enc_entries(es).len() <= s.len(),
        s.subrange(i, i + enc_entries(es).len()) == enc_entries(es),
    ensures
        dec_entries(s, i, es.len()) == Some((es, i + enc_entries(es).len())),
    decreases es.len(),
{
    if es.len() > 0 {
        let head = enc_entry(es[0]);
        let tail = es.drop_first();
        assert(enc_entries(es) == head + enc_entries(tail));
        lemma_subrange_concat(s, i, head, enc_entries(tail));
        lemma_dec_enc_entry(s, i, es[0]);
        assert(forall|k: int| 0 <= k < tail.len() ==> row_wf(#[trigger] tail[k].1)) by {
            assert(forall|k: int| 0 <= k < tail.len() ==> tail[k] == es[k + 1]);
        }
        lemma_dec_enc_entries(s, i + head.len(), tail);
        assert(seq![es[0]] + tail =~= es);
    }
}

/// Round trip for a whole table blob: decoding what was encoded yields the
/// same entries, so the serialized form is lossless.
pub proof fn lemma_dec_enc_table(es: Seq<(u64, Seq<ValueV>)>)
    requires
        table_wf(es),
    ensures
        dec_table_blob(enc_table(es)) == Some(es),
{
    let s = enc_table(es);
    let lenc = enc_num(es.len() as u64);
    assert(s.subrange(0, s.len() as int) =~= s);
    lemma_subrange_concat(s, 0, lenc, enc_entries(es));
    lemma_dec_enc_num(s, 0, es.len() as u64);
    lemma_dec_enc_entries(s, lenc.len() as int, es);
}

/// Appends the wire form of a row to the output.
pub fn write_row(out: &mut Vec<char>, r: &Row)
    ensures
        final(out)@ == old(out)@ + enc_row(r@),
        row_wf(r@),
{
    let n = r.0.len();
    write_num(out, n as u64);
    let ghost mid = out@;
    let ghost rv = r@;
    proof {
        assert(out@.subrange(0, mid.len() as int) =~= mid);
        assert(out@.subrange(mid.len() as int, out@.len() as int) =~= Seq::<char>::empty());
        assert(rv.subrange(0, n as int) =~= rv);
        assert(Seq::<char>::empty() + enc_values(rv) =~= enc_values(rv));
    }
    let mut i: usize = 0;
    while i < n
        invariant
            n == r.0@.len(),
            rv == r@,
            rv.len() == n,
            i <= n,
            enc_values(rv) == out@.subrange(mid.len() as int, out@.len() as int) + enc_values(
                rv.subrange(i as int, n as int),
            ),
            out@.len() >= mid.len(),
            out@.subrange(0, mid.len() as int) == mid,
            forall|k: int| 0 <= k < i ==> value_wf(#[trigger] rv[k]),
        decreases n - i,
    {
        let ghost before = out@;
        let ghost suffix = rv.subrange(i as int, n as int);
        proof {
            assert(suffix[0] == rv[i as int]);
            assert(suffix.drop_first() =~= rv.subrange(i + 1, n as int));
            assert(enc_values(suffix) == enc_value(rv[i as int]) + enc_values(
                rv.subrange(i + 1, n as int),
            ));
        }
        write_value(out, &r.0[i]);
        proof {
            assert(rv[i as int] == r.0@[i as int]@);
            assert(out@.subrange(0, mid.len() as int) =~= mid);
            assert(out@.subrange(mid.len() as int, out@.len() as int) =~= before.subrange(
                mid.len() as int,
                before.len() as int,
            ) + enc_value(rv[i as int]));
            assert((before.subrange(mid.len() as int, before.len() as int) + enc_value(
                rv[i as int],
            )) + enc_values(rv.subrange(i + 1, n as int)) =~= before.subrange(
                mid.len() as int,
                before.len() as int,
            ) + (enc_value(rv[i as int]) + enc_values(rv.subrange(i + 1, n as int))));
        }
        i += 1;
    }
    proof {
        assert(enc_values(rv.subrange(n as int, n as int)) =~= Seq::<char>::empty());
        assert(enc_values(rv) + Seq::<char>::empty() =~= enc_values(rv));
        assert(out@.len() == mid.len() + enc_values(rv).len());
        lemma_seq_parts(out@, mid, enc_values(rv));
        assert((old(out)@ + enc_num(rv.len() as u64)) + enc_values(rv) =~= old(out)@ + (enc_num(
            rv.len() as u64,
        ) + enc_values(rv)));
    }
}

/// Builds the whole-table blob of an ordered (id, row) collection.
pub fn write_table_blob(rows: &Vec<(u64, Row)>) -> (r: Vec<char>)
    ensures
        r@ == enc_table(rows@.map_values(|e: (u64, Row)| (e.0, e.1@))),
        table_wf(rows@.map_values(|e: (u64, Row)| (e.0, e.1@))),
{
    let ghost esv = rows@.map_values(|e: (u64, Row)| (e.0, e.1@));
    let mut out: Vec<char> = Vec::new();
    let n = rows.len();
    write_num(&mut out, n as u64);
    let ghost mid = out@;
    proof {
        assert(out@.subrange(0, mid.len() as int) =~= mid);
        assert(out@.subrange(mid.len() as int, out@.len() as int) =~= Seq::<char>::empty());
        assert(esv.subrange(0, n as int) =~= esv);
        assert(Seq::<char>::empty() + enc_entries(esv) =~= enc_entries(esv));
    }
    let mut i: usize = 0;
    while i < n
        invariant
            n == rows@.len(),
            esv == rows@.map_values(|e: (u64, Row)| (e.0, e.1@)),
            esv.len() == n,
            i <= n,
            enc_entries(esv) == out@.subrange(mid.len() as int, out@.len() as int) + enc_entries(
                esv.subrange(i as int, n as int),
            ),
            out@.len() >= mid.len(),
            out@.subrange(0, mid.len() as int) == mid,
            forall|k: int| 0 <= k < i ==> row_wf(#[trigger] esv[k].1),
        decreases n - i,
    {
        let ghost before = out@;
        let ghost suffix = esv.subrange(i as int, n as int);
        proof {
            assert(suffix[0] == esv[i as int]);
            assert(suffix.drop_first() =~= esv.subrange(i + 1, n as int));
            assert(enc_entries(suffix) == enc_entry(esv[i as int]) + enc_entries(
                esv.subrange(i + 1, n as int),
            ));
        }
        write_num(&mut out, rows[i].0);
        write_row(&mut out, &rows[i].1);
        proof {
            assert(esv[i as int] == (rows@[i as int].0, rows@[i as int].1@));
            assert(out@.subrange(0, mid.len() as int) =~= mid);
            assert(out@.subrange(mid.len() as int, out@.len() as int) =~= before.subrange(
                mid.len() as int,
                before.len() as int,
            ) + enc_entry(esv[i as int]));
            assert((before.subrange(mid.len() as int, before.len() as int) + enc_entry(
                esv[i as int],
            )) + enc_entries(esv.subrange(i + 1, n as int)) =~= before.subrange(
                mid.len() as int,
                before.len() as int,
            ) + (enc_entry(esv[i as int]) + enc_entries(esv.subrange(i + 1, n as int))));
        }
        i += 1;
    }
    proof {
        assert(enc_entries(esv.subrange(n as int, n as int)) =~= Seq::<char>::empty());
        assert(enc_entries(esv) + Seq::<char>::empty() =~= enc_entries(esv));
        assert(out@.len() == mid.len() + enc_entries(esv).len());
        lemma_seq_parts(out@, mid, enc_entries(esv));
        assert(mid =~= Seq::<char>::empty() + enc_num(esv.len() as u64));
        assert(out@ =~= enc_table(esv));
    }
    out
}

/// Prepends already-read values to a partial read result.
pub open spec fn prepend_values(acc: Seq<ValueV>, r: Option<(Seq<ValueV>, int)>) -> Option<
    (Seq<ValueV>, int),
> {
    match r {
        None => None,
        Some((vs, end)) => Some((acc + vs, end)),
    }
}

/// Prepends already-read entries to a partial read result.
pub open spec fn prepend_entries(
    acc: Seq<(u64, Seq<ValueV>)>,
    r: Option<(Seq<(u64, Seq<ValueV>)>, int)>,
) -> Option<(Seq<(u64, Seq<ValueV>)>, int)> {
    match r {
        None => None,
        Some((es, end)) => Some((acc + es, end)),
    }
}

/// Reads a row from the blob at position `i`, as `dec_row` does.
pub fn read_row(s: &Vec<char>, i: usize) -> (r: Option<(Row, usize)>)
    ensures
        match r {
            Some(p) => dec_row(s@, i as int) == Some((p.0@, p.1 as int)) && i <= p.1 <= s@.len(),
            None => dec_row(s@, i as int) is None,
        },
{
    let (n, j) = match read_num(s, i) {
        Some(p) => p,
        None => {
            return None;
        },
    };
    let mut acc: Vec<Value> = Vec::new();
    let mut pos = j;
    let mut k: u64 = 0;
    while k < n
        invariant
            k <= n,
            i <= pos <= s@.len(),
            acc@.len() == k,
            dec_num(s@, i as int) == Some((n, j as int)),
            dec_values(s@, j as int, n as nat) == prepend_values(
                acc@.map_values(|v: Value| v@),
                dec_values(s@, pos as int, (n - k) as nat),
            ),
        decreases n - k,
    {
        let ghost accv0 = acc@.map_values(|v: Value| v@);
        let (v, newpos) = match read_value(s, pos) {
            Some(p) => p,
            None => {
                proof {
                    assert(dec_values(s@, pos as int, (n - k) as nat) is None);
                }
                return None;
            },
        };
        let ghost vv = v@;
        acc.push(v);
        proof {
            let accv1 = acc@.map_values(|v: Value| v@);
            assert(accv1 =~= accv0 + seq![vv]);
            assert(dec_value(s@, pos as int) == Some((vv, newpos as int)));
            match dec_values(s@, newpos as int, (n - k - 1) as nat) {
                None => {
                    assert(dec_values(s@, pos as int, (n - k) as nat) is None);
                },
                Some((vs, end)) => {
                    assert(dec_values(s@, pos as int, (n - k) as nat) == Some(
                        (seq![vv] + vs, end),
                    ));
                    assert(accv0 + (seq![vv] + vs) =~= accv1 + vs);
                },
            }
        }
        pos = newpos;
        k += 1;
    }
    proof {
        assert(dec_values(s@, pos as int, 0nat) == Some((Seq::<ValueV>::empty(), pos as int)));
        let accv = acc@.map_values(|v: Value| v@);
        assert(accv + Seq::<ValueV>::empty() =~= accv);
        assert(dec_values(s@, j as int, n as nat) == Some((accv, pos as int)));
    }
    Some((Row(acc), pos))
}

/// Reads a whole table blob, as `dec_table_blob` does.
pub fn read_table_blob(s: &Vec<char>) -> (r: Option<Vec<(u64, Row)>>)
    ensures
        match r {
            Some(rows) => dec_table_blob(s@) == Some(
                rows@.map_values(|e: (u64, Row)| (e.0, e.1@)),
            ),
            None => dec_table_blob(s@) is None,
        },
{
    let (n, j) = match read_num(s, 0) {
        Some(p) => p,
        None => {
            return None;
        },
    };
    let mut acc: Vec<(u64, Row)> = Vec::new();
    let mut pos = j;
    let mut k: u64 = 0;
    while k < n
        invariant
            k <= n,
            pos <= s@.len(),
            acc@.len() == k,
            dec_num(s@, 0) == Some((n, j as int)),
            dec_entries(s@, j as int, n as nat) == prepend_entries(
                acc@.map_values(|e: (u64, Row)| (e.0, e.1@)),
                dec_entries(s@, pos as int, (n - k) as nat),
            ),
        decreases n - k,
    {
        let ghost accv0 = acc@.map_values(|e: (u64, Row)| (e.0, e.1@));
        let (id, p1) = match read_num(s, pos) {
            Some(p) => p,
            None => {
                proof {
                    assert(dec_entry(s@, pos as int) is None);
                    assert(dec_entries(s@, pos as int, (n - k) as nat) is None);
                }
                return None;
            },
        };
        let (row, newpos) = match read_row(s, p1) {
            Some(p) => p,
            None => {
                proof {
                    assert(dec_entry(s@, pos as int) is None);
                    assert(dec_entries(s@, pos as int, (n - k) as nat) is None);
                }
                return None;
            },
        };
        let ghost ev = (id, row@);
        acc.push((id, row));
        proof {
            let accv1 = acc@.map_values(|e: (u64, Row)| (e.0, e.1@));
            assert(accv1 =~= accv0 + seq![ev]);
            assert(dec_entry(s@, pos as int) == Some((ev, newpos as int)));
            match dec_entries(s@, newpos as int, (n - k - 1) as nat) {
                None => {
                    assert(dec_entries(s@, pos as int, (n - k) as nat) is None);
                },
                Some((es, end)) => {
                    assert(dec_entries(s@, pos as int, (n - k) as nat) == Some(
                        (seq![ev] + es, end),
                    ));
                    assert(accv0 + (seq![ev] + es) =~= accv1 + es);
                },
            }
        }
        pos = newpos;
        k += 1;
    }
    if pos != s.len() {
        proof {
            assert(dec_entries(s@, pos as int, 0nat) == Some(
                (Seq::<(u64, Seq<ValueV>)>::empty(), pos as int),
            ));
            let accv = acc@.map_values(|e: (u64, Row)| (e.0, e.1@));
            assert(accv + Seq::<(u64, Seq<ValueV>)>::empty() =~= accv);
            assert(dec_table(s@, 0) == Some((accv, pos as int)));
        }
        return None;
    }
    proof {
        assert(dec_entries(s@, pos as int, 0nat) == Some(
            (Seq::<(u64, Seq<ValueV>)>::empty(), pos as int),
        ));
        let accv = acc@.map_values(|e: (u64, Row)| (e.0, e.1@));
        assert(accv + Seq::<(u64, Seq<ValueV>)>::empty() =~= accv);
        assert(dec_table(s@, 0) == Some((accv, pos as int)));
    }
    Some(acc)
}

/// A column option on the wire: `N` for nullable, `D` and the value for a
/// default.
pub open spec fn enc_opt(o: ColumnOptionV) -> Seq<char> {
    match o {
        ColumnOptionV::Null => seq!['N'],
        ColumnOptionV::Default(v) => seq!['D'] + enc_value(v),
    }
}

/// Whether an option's default value fits the wire format.
pub open spec fn opt_wf(o: ColumnOptionV) -> bool {
    match o {
        ColumnOptionV::Null => true,
        ColumnOptionV::Default(v) => value_wf(v),
    }
}

/// Column options on the wire, in order.
pub open spec fn enc_opts(os: Seq<ColumnOptionV>) -> Seq<char>
    decreases os.len(),
{
    if os.len() == 0 {
        Seq::empty()
    } else {
        enc_opt(os[0]) + enc_opts(os.drop_first())
    }
}

/// The tag character of a declared type.
pub open spec fn dtype_char(dt: DataType) -> char {
    match dt {
        DataType::Bool => 'B',
        DataType::Int => 'I',
        DataType::Text => 'T',
    }
}

/// A column definition on the wire: its name, its declared type's tag, its
/// option count and its options.
pub open spec fn enc_coldef(cd: ColumnDefV) -> Seq<char> {
    enc_chars(cd.name) + seq![dtype_char(cd.data_type)] + enc_num(cd.options.len() as u64)
        + enc_opts(cd.options)
}

/// Whether a column definition fits the wire format.
pub open spec fn coldef_wf(cd: ColumnDefV) -> bool {
    &&& cd.name.len() <= u64::MAX
    &&& cd.options.len() <= u64::MAX
    &&& forall|k: int| 0 <= k < cd.options.len() ==> opt_wf(#[trigger] cd.options[k])
}

/// Column definitions on the wire, in order.
pub open spec fn enc_coldefs(cds: Seq<ColumnDefV>) -> Seq<char>
    decreases cds.len(),
{
    if cds.len() == 0 {
        Seq::empty()
    } else {
        enc_coldef(cds[0]) + enc_coldefs(cds.drop_first())
    }
}

/// A schema on the wire: its table name, its column count and its columns.
pub open spec fn enc_schema(sv: SchemaV) -> Seq<char> {
    enc_chars(sv.table_name) + enc_num(sv.column_defs.len() as u64) + enc_coldefs(sv.column_defs)
}

/// Whether a schema fits the wire format.
pub open spec fn schema_wf(sv: SchemaV) -> bool {
    &&& sv.table_name.len() <= u64::MAX
    &&& sv.column_defs.len() <= u64::MAX
    &&& forall|k: int| 0 <= k < sv.column_defs.len() ==> coldef_wf(#[trigger] sv.column_defs[k])
}

/// Reads a column option at position `i`.
pub open spec fn dec_opt(s: Seq<char>, i: int) -> Option<(ColumnOptionV, int)> {
    if i < 0 || i >= s.len() {
        None
    } else if s[i] == 'N' {
        Some((ColumnOptionV::Null, i + 1))
    } else if s[i] == 'D' {
        match dec_value(s, i + 1) {
            None => None,
            Some((v, j)) => Some((ColumnOptionV::Default(v), j)),
        }
    } else {
        None
    }
}

/// Reads `n` column options in sequence starting at position `i`.
pub open spec fn dec_opts(s: Seq<char>, i: int, n: nat) -> Option<(Seq<ColumnOptionV>, int)>
    decreases n,
{
    if n == 0 {
        Some((Seq::empty(), i))
    } else {
        match dec_opt(s, i) {
            None => None,
            Some((o, j)) => match dec_opts(s, j, (n - 1) as nat) {
                None => None,
                Some((os, k)) => Some((seq![o] + os, k)),
            },
        }
    }
}

/// Reads a declared type tag at position `i`.
pub open spec fn dec_dtype(s: Seq<char>, i: int) -> Option<(DataType, int)> {
    if i < 0 || i >= s.len() {
        None
    } else if s[i] == 'B' {
        Some((DataType::Bool, i + 1))
    } else if s[i] == 'I' {
        Some((DataType::Int, i + 1))
    } else if s[i] == 'T' {
        Some((DataType::Text, i + 1))
    } else {
        None
    }
}

/// Reads a column definition at position `i`.
pub open spec fn dec_coldef(s: Seq<char>, i: int) -> Option<(ColumnDefV, int)> {
    match dec_chars(s, i) {
        None => None,
        Some((name, j)) => match dec_dtype(s, j) {
            None => None,
            Some((dt, k)) => match dec_num(s, k) {
                None => None,
                Some((n, m)) => match dec_opts(s, m, n as nat) {
                    None => None,
                    Some((os, end)) => Some(
                        (ColumnDefV { name, data_type: dt, options: os }, end),
                    ),
                },
            },
        },
    }
}

/// Reads `n` column definitions in sequence starting at position `i`.
pub open spec fn dec_coldefs(s: Seq<char>, i: int, n: nat) -> Option<(Seq<ColumnDefV>, int)>
    decreases n,
{
    if n == 0 {
        Some((Seq::empty(), i))
    } else {
        match dec_coldef(s, i) {
            None => None,
            Some((cd, j)) => match dec_coldefs(s, j, (n - 1) as nat) {
                None => None,
                Some((cds, k)) => Some((seq![cd] + cds, k)),
            },
        }
    }
}

/// Reads a whole schema blob: the schema, which must fill the blob exactly.
pub open spec fn dec_schema_blob(s: Seq<char>) -> Option<SchemaV> {
    match dec_chars(s, 0) {
        None => None,
        Some((name, j)) => match dec_num(s, j) {
            None => None,
            Some((n, k)) => match dec_coldefs(s, k, n as nat) {
                None => None,
                Some((cds, end)) => if end == s.len() {
                    Some(SchemaV { table_name: name, column_defs: cds })
                } else {
                    None
                },
            },
        },
    }
}

/// Decoding inverts encoding for column options.
pub proof fn lemma_dec_enc_opt(s: Seq<char>, i: int, o: ColumnOptionV)
    requires
        0 <= i,
        opt_wf(o),
        i + enc_opt(o).len() <= s.len(),
        s.subrange(i, i + enc_opt(o).len()) == enc_opt(o),
    ensures
        dec_opt(s, i) == Some((o, i + enc_opt(o).len())),
{
    let e = enc_opt(o);
    lemma_subrange_index(s, i, e, 0);
    match o {
        ColumnOptionV::Null => {},
        ColumnOptionV::Default(v) => {
            lemma_subrange_concat(s, i, seq!['D'], enc_value(v));
            lemma_dec_enc_value(s, i + 1, v);
        },
    }
}

/// Decoding inverts encoding for option sequences.
pub proof fn lemma_dec_enc_opts(s: Seq<char>, i: int, os: Seq<ColumnOptionV>)
    requires
        0 <= i,
        forall|k: int| 0 <= k < os.len() ==> opt_wf(#[trigger] os[k]),
        i + enc_opts(os).len() <= s.len(),
        s.subrange(i, i + enc_opts(os).len()) == enc_opts(os),
    ensures
        dec_opts(s, i, os.len()) == Some((os, i + enc_opts(os).len())),
    decreases os.len(),
{
    if os.len() > 0 {
        let head = enc_opt(os[0]);
        let tail = os.drop_first();
        assert(enc_opts(os) == head + enc_opts(tail));
        lemma_subrange_concat(s, i, head, enc_opts(tail));
        lemma_dec_enc_opt(s, i, os[0]);
        assert(forall|k: int| 0 <= k < tail.len() ==> opt_wf(#[trigger] tail[k])) by {
            assert(forall|k: int| 0 <= k < tail.len() ==> tail[k] == os[k + 1]);
        }
        lemma_dec_enc_opts(s, i + head.len(), tail);
        assert(seq![os[0]] + tail =~= os);
    }
}

/// Decoding inverts encoding for column definitions.
pub proof fn lemma_dec_enc_coldef(s: Seq<char>, i: int, cd: ColumnDefV)
    requires
        0 <= i,
        coldef_wf(cd),
        i + enc_coldef(cd).len() <= s.len(),
        s.subrange(i, i + enc_coldef(cd).len()) == enc_coldef(cd),
    ensures
        dec_coldef(s, i) == Some((cd, i + enc_coldef(cd).len())),
{
    let a = enc_chars(cd.name);
    let b = seq![dtype_char(cd.data_type)];
    let c = enc_num(cd.options.len() as u64);
    let d = enc_opts(cd.options);
    assert(enc_coldef(cd) =~= a + (b + (c + d))) by {
        assert(enc_coldef(cd) == ((a + b) + c) + d);
    }
    lemma_subrange_concat(s, i, a, b + (c + d));
    lemma_dec_enc_chars(s, i, cd.name);
    let j = i + a.len();
    lemma_subrange_concat(s, j, b, c + d);
    lemma_subrange_index(s, j, b, 0);
    let k = j + 1;
    lemma_subrange_concat(s, k, c, d);
    lemma_dec_enc_num(s, k, cd.options.len() as u64);
    lemma_dec_enc_opts(s, k + c.len(), cd.options);
    match cd.data_type {
        DataType::Bool => {},
        DataType::Int => {},
        DataType::Text => {},
    }
}

/// Decoding inverts encoding for column definition sequences.
pub proof fn lemma_dec_enc_coldefs(s: Seq<char>, i: int, cds: Seq<ColumnDefV>)
    requires
        0 <= i,
        forall|k: int| 0 <= k < cds.len() ==> coldef_wf(#[trigger] cds[k]),
        i + enc_coldefs(cds).len() <= s.len(),
        s.subrange(i, i + enc_coldefs(cds).len()) == enc_coldefs(cds),
    ensures
        dec_coldefs(s, i, cds.len()) == Some((cds, i + enc_coldefs(cds).len())),
    decreases cds.len(),
{
    if cds.len() > 0 {
        let head = enc_coldef(cds[0]);
        let tail = cds.drop_first();
        assert(enc_coldefs(cds) == head + enc_coldefs(tail));
        lemma_subrange_concat(s, i, head, enc_coldefs(tail));
        lemma_dec_enc_coldef(s, i, cds[0]);
        assert(forall|k: int| 0 <= k < tail.len() ==> coldef_wf(#[trigger] tail[k])) by {
            assert(forall|k: int| 0 <= k < tail.len() ==> tail[k] == cds[k + 1]);
        }
        lemma_dec_enc_coldefs(s, i + head.len(), tail);
        assert(seq![cds[0]] + tail =~= cds);
    }
}

/// Round trip for a whole schema blob: decoding what was encoded yields the
/// same schema, so the serialized form is lossless.
pub proof fn lemma_dec_enc_schema(sv: SchemaV)
    requires
        schema_wf(sv),
    ensures
        dec_schema_blob(enc_schema(sv)) == Some(sv),
{
    let s = enc_schema(sv);
    let a = enc_chars(sv.table_name);
    let b = enc_num(sv.column_defs.len() as u64);
    let c = enc_coldefs(sv.column_defs);
    assert(s.subrange(0, s.len() as int) =~= s);
    assert(s =~= a + (b + c)) by {
        assert(s == (a + b) + c);
    }
    lemma_subrange_concat(s, 0, a, b + c);
    lemma_dec_enc_chars(s, 0, sv.table_name);
    lemma_subrange_concat(s, a.len() as int, b, c);
    lemma_dec_enc_num(s, a.len() as int, sv.column_defs.len() as u64);
    lemma_dec_enc_coldefs(s, a.len() + b.len() as int, sv.column_defs);
}

/// Appends the wire form of a column option to the output.
pub fn write_opt(out: &mut Vec<char>, o: &ColumnOption)
    ensures
        final(out)@ == old(out)@ + enc_opt(o@),
        opt_wf(o@),
{
    match o {
        ColumnOption::Null => {
            out.push('N');
            proof {
                assert(out@ =~= old(out)@ + enc_opt(o@));
            }
        },
        ColumnOption::Default(v) => {
            out.push('D');
            write_value(out, v);
            proof {
                assert(out@ =~= old(out)@ + enc_opt(o@));
            }
        },
    }
}

/// Appends the wire form of a column definition to the output.
pub fn write_coldef(out: &mut Vec<char>, cd: &ColumnDef)
    ensures
        final(out)@ == old(out)@ + enc_coldef(cd@),
        coldef_wf(cd@),
{
    write_chars(out, cd.name.as_str());
    out.push(
        match cd.data_type {
            DataType::Bool => 'B',
            DataType::Int => 'I',
            DataType::Text => 'T',
        },
    );
    let n = cd.options.len();
    write_num(out, n as u64);
    let ghost mid = out@;
    let ghost osv = cd@.options;
    proof {
        assert(out@.subrange(0, mid.len() as int) =~= mid);
        assert(out@.subrange(mid.len() as int, out@.len() as int) =~= Seq::<char>::empty());
        assert(osv.subrange(0, n as int) =~= osv);
        assert(Seq::<char>::empty() + enc_opts(osv) =~= enc_opts(osv));
    }
    let mut i: usize = 0;
    while i < n
        invariant
            n == cd.options@.len(),
            osv == cd@.options,
            osv.len() == n,
            i <= n,
            enc_opts(osv) == out@.subrange(mid.len() as int, out@.len() as int) + enc_opts(
                osv.subrange(i as int, n as int),
            ),
            out@.len() >= mid.len(),
            out@.subrange(0, mid.len() as int) == mid,
            forall|k: int| 0 <= k < i ==> opt_wf(#[trigger] osv[k]),
        decreases n - i,
    {
        let ghost before = out@;
        let ghost suffix = osv.subrange(i as int, n as int);
        proof {
            assert(suffix[0] == osv[i as int]);
            assert(suffix.drop_first() =~= osv.subrange(i + 1, n as int));
            assert(enc_opts(suffix) == enc_opt(osv[i as int]) + enc_opts(
                osv.subrange(i + 1, n as int),
            ));
        }
        write_opt(out, &cd.options[i]);
        proof {
            assert(osv[i as int] == cd.options@[i as int]@);
            assert(out@.subrange(0, mid.len() as int) =~= mid);
            assert(out@.subrange(mid.len() as int, out@.len() as int) =~= before.subrange(
                mid.len() as int,
                before.len() as int,
            ) + enc_opt(osv[i as int]));
            assert((before.subrange(mid.len() as int, before.len() as int) + enc_opt(
                osv[i as int],
            )) + enc_opts(osv.subrange(i + 1, n as int)) =~= before.subrange(
                mid.len() as int,
                before.len() as int,
            ) + (enc_opt(osv[i as int]) + enc_opts(osv.subrange(i + 1, n as int))));
        }
        i += 1;
    }
    proof {
        assert(enc_opts(osv.subrange(n as int, n as int)) =~= Seq::<char>::empty());
        assert(enc_opts(osv) + Seq::<char>::empty() =~= enc_opts(osv));
        assert(out@.len() == mid.len() + enc_opts(osv).len());
        lemma_seq_parts(out@, mid, enc_opts(osv));
        assert(mid =~= old(out)@ + (enc_chars(cd@.name) + seq![dtype_char(cd@.data_type)]
            + enc_num(osv.len() as u64)));
        assert(out@ =~= old(out)@ + enc_coldef(cd@));
    }
}

/// Builds the whole-schema blob of a schema.
pub fn write_schema_blob(schema: &Schema) -> (r: Vec<char>)
    ensures
        r@ == enc_schema(schema@),
        schema_wf(schema@),
{
    let mut out: Vec<char> = Vec::new();
    write_chars(&mut out, schema.table_name.as_str());
    let n = schema.column_defs.len();
    write_num(&mut out, n as u64);
    let ghost mid = out@;
    let ghost csv = schema@.column_defs;
    proof {
        assert(out@.subrange(0, mid.len() as int) =~= mid);
        assert(out@.subrange(mid.len() as int, out@.len() as int) =~= Seq::<char>::empty());
        assert(csv.subrange(0, n as int) =~= csv);
        assert(Seq::<char>::empty() + enc_coldefs(csv) =~= enc_coldefs(csv));
    }
    let mut i: usize = 0;
    while i < n
        invariant
            n == schema.column_defs@.len(),
            csv == schema@.column_defs,
            csv.len() == n,
            i <= n,
            enc_coldefs(csv) == out@.subrange(mid.len() as int, out@.len() as int) + enc_coldefs(
                csv.subrange(i as int, n as int),
            ),
            out@.len() >= mid.len(),
            out@.subrange(0, mid.len() as int) == mid,
            forall|k: int| 0 <= k < i ==> coldef_wf(#[trigger] csv[k]),
        decreases n - i,
    {
        let ghost before = out@;
        let ghost suffix = csv.subrange(i as int, n as int);
        proof {
            assert(suffix[0] == csv[i as int]);
            assert(suffix.drop_first() =~= csv.subrange(i + 1, n as int));
            assert(enc_coldefs(suffix) == enc_coldef(csv[i as int]) + enc_coldefs(
                csv.subrange(i + 1, n as int),
            ));
        }
        write_coldef(&mut out, &schema.column_defs[i]);
        proof {
            assert(csv[i as int] == schema.column_defs@[i as int]@);
            assert(out@.subrange(0, mid.len() as int) =~= mid);
            assert(out@.subrange(mid.len() as int, out@.len() as int) =~= before.subrange(
                mid.len() as int,
                before.len() as int,
            ) + enc_coldef(csv[i as int]));
            assert((before.subrange(mid.len() as int, before.len() as int) + enc_coldef(
                csv[i as int],
            )) + enc_coldefs(csv.subrange(i + 1, n as int)) =~= before.subrange(
                mid.len() as int,
                before.len() as int,
            ) + (enc_coldef(csv[i as int]) + enc_coldefs(csv.subrange(i + 1, n as int))));
        }
        i += 1;
    }
    proof {
        assert(enc_coldefs(csv.subrange(n as int, n as int)) =~= Seq::<char>::empty());
        assert(enc_coldefs(csv) + Seq::<char>::empty() =~= enc_coldefs(csv));
        assert(out@.len() == mid.len() + enc_coldefs(csv).len());
        lemma_seq_parts(out@, mid, enc_coldefs(csv));
        assert(mid =~= (enc_chars(schema@.table_name) + enc_num(csv.len() as u64)));
        assert(out@ =~= enc_schema(schema@));
    }
    out
}

/// Reads a column option from the blob at position `i`, as `dec_opt` does.
pub fn read_opt(s: &Vec<char>, i: usize) -> (r: Option<(ColumnOption, usize)>)
    ensures
        match r {
            Some(p) => dec_opt(s@, i as int) == Some((p.0@, p.1 as int)) && i < p.1 <= s@.len(),
            None => dec_opt(s@, i as int) is None,
        },
{
    if i >= s.len() {
        return None;
    }
    let c = s[i];
    if c == 'N' {
        Some((ColumnOption::Null, i + 1))
    } else if c == 'D' {
        match read_value(s, i + 1) {
            Some((v, j)) => Some((ColumnOption::Default(v), j)),
            None => None,
        }
    } else {
        None
    }
}

/// Reads a column definition from the blob at position `i`, as `dec_coldef`
/// does.
pub fn read_coldef(s: &Vec<char>, i: usize) -> (r: Option<(ColumnDef, usize)>)
    ensures
        match r {
            Some(p) => dec_coldef(s@, i as int) == Some((p.0@, p.1 as int)) && i < p.1 <= s@.len(),
            None => dec_coldef(s@, i as int) is None,
        },
{
    let (name, j) = match read_chars(s, i) {
        Some(p) => p,
        None => {
            return None;
        },
    };
    if j >= s.len() {
        return None;
    }
    let c = s[j];
    let dt = if c == 'B' {
        DataType::Bool
    } else if c == 'I' {
        DataType::Int
    } else if c == 'T' {
        DataType::Text
    } else {
        return None;
    };
    let (n, m) = match read_num(s, j + 1) {
        Some(p) => p,
        None => {
            return None;
        },
    };
    let mut acc: Vec<ColumnOption> = Vec::new();
    let mut pos = m;
    let mut k: u64 = 0;
    while k < n
        invariant
            k <= n,
            pos <= s@.len(),
            acc@.len() == k,
            dec_chars(s@, i as int) == Some((name@, j as int)),
            i < j < s@.len(),
            dec_dtype(s@, j as int) == Some((dt, j + 1)),
            dec_num(s@, j + 1) == Some((n, m as int)),
            i < m <= pos,
            dec_opts(s@, m as int, n as nat) == prepend_opts(
                acc@.map_values(|o: ColumnOption| o@),
                dec_opts(s@, pos as int, (n - k) as nat),
            ),
        decreases n - k,
    {
        let ghost accv0 = acc@.map_values(|o: ColumnOption| o@);
        let (o, newpos) = match read_opt(s, pos) {
            Some(p) => p,
            None => {
                proof {
                    assert(dec_opts(s@, pos as int, (n - k) as nat) is None);
                }
                return None;
            },
        };
        let ghost ov = o@;
        acc.push(o);
        proof {
            let accv1 = acc@.map_values(|o: ColumnOption| o@);
            assert(accv1 =~= accv0 + seq![ov]);
            assert(dec_opt(s@, pos as int) == Some((ov, newpos as int)));
            match dec_opts(s@, newpos as int, (n - k - 1) as nat) {
                None => {
                    assert(dec_opts(s@, pos as int, (n - k) as nat) is None);
                },
                Some((os, end)) => {
                    assert(dec_opts(s@, pos as int, (n - k) as nat) == Some((seq![ov] + os, end)));
                    assert(accv0 + (seq![ov] + os) =~= accv1 + os);
                },
            }
        }
        pos = newpos;
        k += 1;
    }
    let cd = ColumnDef { name: string_of_chars(&name), data_type: dt, options: acc };
    proof {
        assert(dec_opts(s@, pos as int, 0nat) == Some((Seq::<ColumnOptionV>::empty(), pos as int)));
        let accv = cd.options@.map_values(|o: ColumnOption| o@);
        assert(accv + Seq::<ColumnOptionV>::empty() =~= accv);
        assert(dec_opts(s@, m as int, n as nat) == Some((accv, pos as int)));
        assert(cd@ == (ColumnDefV { name: name@, data_type: dt, options: accv }));
    }
    Some((cd, pos))
}

/// Reads a whole schema blob, as `dec_schema_blob` does.
pub fn read_schema_blob(s: &Vec<char>) -> (r: Option<Schema>)
    ensures
        match r {
            Some(schema) => dec_schema_blob(s@) == Some(schema@),
            None => dec_schema_blob(s@) is None,
        },
{
    let (name, j) = match read_chars(s, 0) {
        Some(p) => p,
        None => {
            return None;
        },
    };
    let (n, k) = match read_num(s, j) {
        Some(p) => p,
        None => {
            return None;
        },
    };
    let mut acc: Vec<ColumnDef> = Vec::new();
    let mut pos = k;
    let mut q: u64 = 0;
    while q < n
        invariant
            q <= n,
            pos <= s@.len(),
            acc@.len() == q,
            dec_chars(s@, 0) == Some((name@, j as int)),
            dec_num(s@, j as int) == Some((n, k as int)),
            dec_coldefs(s@, k as int, n as nat) == prepend_coldefs(
                acc@.map_values(|c: ColumnDef| c@),
                dec_coldefs(s@, pos as int, (n - q) as nat),
            ),
        decreases n - q,
    {
        let ghost accv0 = acc@.map_values(|c: ColumnDef| c@);
        let (cd, newpos) = match read_coldef(s, pos) {
            Some(p) => p,
            None => {
                proof {
                    assert(dec_coldefs(s@, pos as int, (n - q) as nat) is None);
                }
                return None;
            },
        };
        let ghost cv = cd@;
        acc.push(cd);
        proof {
            let accv1 = acc@.map_values(|c: ColumnDef| c@);
            assert(accv1 =~= accv0 + seq![cv]);
            assert(dec_coldef(s@, pos as int) == Some((cv, newpos as int)));
            match dec_coldefs(s@, newpos as int, (n - q - 1) as nat) {
                None => {
                    assert(dec_coldefs(s@, pos as int, (n - q) as nat) is None);
                },
                Some((cds, end)) => {
                    assert(dec_coldefs(s@, pos as int, (n - q) as nat) == Some(
                        (seq![cv] + cds, end),
                    ));
                    assert(accv0 + (seq![cv] + cds) =~= accv1 + cds);
                },
            }
        }
        pos = newpos;
        q += 1;
    }
    if pos != s.len() {
        proof {
            assert(dec_coldefs(s@, pos as int, 0nat) == Some(
                (Seq::<ColumnDefV>::empty(), pos as int),
            ));
            let accv = acc@.map_values(|c: ColumnDef| c@);
            assert(accv + Seq::<ColumnDefV>::empty() =~= accv);
            assert(dec_coldefs(s@, k as int, n as nat) == Some((accv, pos as int)));
        }
        return None;
    }
    let schema = Schema { table_name: string_of_chars(&name), column_defs: acc };
    proof {
        assert(dec_coldefs(s@, pos as int, 0nat) == Some((Seq::<ColumnDefV>::empty(), pos as int)));
        let accv = schema.column_defs@.map_values(|c: ColumnDef| c@);
        assert(accv + Seq::<ColumnDefV>::empty() =~= accv);
        assert(dec_coldefs(s@, k as int, n as nat) == Some((accv, pos as int)));
        assert(schema@ == (SchemaV { table_name: name@, column_defs: accv }));
    }
    Some(schema)
}

/// Prepends already-read options to a partial read result.
pub open spec fn prepend_opts(acc: Seq<ColumnOptionV>, r: Option<(Seq<ColumnOptionV>, int)>) -> Option<
    (Seq<ColumnOptionV>, int),
> {
    match r {
        None => None,
        Some((os, end)) => Some((acc + os, end)),
    }
}

/// Prepends already-read column definitions to a partial read result.
pub open spec fn prepend_coldefs(acc: Seq<ColumnDefV>, r: Option<(Seq<ColumnDefV>, int)>) -> Option<
    (Seq<ColumnDefV>, int),
> {
    match r {
        None => None,
        Some((cds, end)) => Some((acc + cds, end)),
    }
}


/// Reads a counter blob: a single number, which must fill the blob exactly.
pub open spec fn dec_num_blob(s: Seq<char>) -> Option<u64> {
    match dec_num(s, 0) {
        None => None,
        Some((n, j)) => if j == s.len() {
            Some(n)
        } else {
            None
        },
    }
}

/// Round trip for a counter blob.
pub proof fn lemma_dec_enc_num_blob(n: u64)
    ensures
        dec_num_blob(enc_num(n)) == Some(n),
{
    let s = enc_num(n);
    assert(s.subrange(0, s.len() as int) =~= s);
    lemma_dec_enc_num(s, 0, n);
}

/// Reads a whole counter blob, as `dec_num_blob` does.
pub fn read_num_blob(s: &Vec<char>) -> (r: Option<u64>)
    ensures
        r == dec_num_blob(s@),
{
    match read_num(s, 0) {
        None => None,
        Some((n, j)) => if j == s.len() {
            Some(n)
        } else {
            None
        },
    }
}

} // verus!
