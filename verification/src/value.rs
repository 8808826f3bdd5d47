use vstd::prelude::*;

verus! {

/// The declared type of a variable, parameter, struct field or return value.
#[derive(Debug, Copy, Clone, PartialEq, Eq, Structural)]
pub enum ValueType {
    Number,
    String,
    Unit,
}

/// A literal value scanned from the source text: an integer numeral
/// (the language has no fractional or exponent syntax, so every numeric
/// literal is a decimal digit run), or the raw, unescaped text of a
/// string literal.
#[derive(Debug, Clone)]
pub enum Value {
    Number(u32),
    String(String),
}

/// The decimal digit character for `d` (`d < 10`).
pub open spec fn digit_char(d: nat) -> char {
    if d == 0 {
        '0'
    } else if d == 1 {
        '1'
    } else if d == 2 {
        '2'
    } else if d == 3 {
        '3'
    } else if d == 4 {
        '4'
    } else if d == 5 {
        '5'
    } else if d == 6 {
        '6'
    } else if d == 7 {
        '7'
    } else if d == 8 {
        '8'
    } else {
        '9'
    }
}

/// The decimal numeral for `n`, most significant digit first, with no
/// leading zeros (except for `n == 0`, which is the single digit `0`).
pub open spec fn dec_str(n: nat) -> Seq<char>
    decreases n,
{
    if n < 10 {
        seq![digit_char(n)]
    } else {
        dec_str(n / 10).push(digit_char(n % 10))
    }
}

/// The single-character string for a decimal digit.
fn digit_str(d: u128) -> (r: &'static str)
    requires
        d < 10,
    ensures
        r@ == seq![digit_char(d as nat)],
{
    proof {
        reveal_strlit("0");
        reveal_strlit("1");
        reveal_strlit("2");
        reveal_strlit("3");
        reveal_strlit("4");
        reveal_strlit("5");
        reveal_strlit("6");
        reveal_strlit("7");
        reveal_strlit("8");
        reveal_strlit("9");
    }
    if d == 0 {
        "0"
    } else if d == 1 {
        "1"
    } else if d == 2 {
        "2"
    } else if d == 3 {
        "3"
    } else if d == 4 {
        "4"
    } else if d == 5 {
        "5"
    } else if d == 6 {
        "6"
    } else if d == 7 {
        "7"
    } else if d == 8 {
        "8"
    } else {
        "9"
    }
}

/// Renders `n` as its decimal numeral.
pub fn dec_of(n: u128) -> (r: String)
    ensures
        r@ == dec_str(n as nat),
    decreases n,
{
    if n < 10 {
        digit_str(n).to_owned()
    } else {
        let mut prefix = dec_of(n / 10);
        prefix.append(digit_str(n % 10));
        prefix
    }
}

/// How many bytes one character takes in UTF-8.
pub open spec fn utf8_len_char(c: char) -> nat {
    if (c as u32) < 0x80 {
        1
    } else if (c as u32) < 0x800 {
        2
    } else if (c as u32) < 0x10000 {
        3
    } else {
        4
    }
}

/// How many bytes a character sequence takes in UTF-8.
pub open spec fn utf8_len(s: Seq<char>) -> nat
    decreases s.len(),
{
    if s.len() == 0 {
        0
    } else {
        utf8_len(s.drop_last()) + utf8_len_char(s.last())
    }
}

/// Computes the UTF-8 byte count of a string's characters.
fn exec_utf8_len(s: &str) -> (r: u128)
    ensures
        r == utf8_len(s@),
        r <= 4 * s@.len(),
{
    let n = s.unicode_len();
    let mut acc: u128 = 0;
    let mut i: usize = 0;
    while i < n
        invariant
            i <= n,
            n == s@.len(),
            acc == utf8_len(s@.take(i as int)),
            acc <= 4 * (i as int),
        decreases n - i,
    {
        let c = s.get_char(i);
        let u = c as u32;
        let step: u128 = if u < 0x80 {
            1
        } else if u < 0x800 {
            2
        } else if u < 0x10000 {
            3
        } else {
            4
        };
        proof {
            assert(s@.take(i + 1).drop_last() =~= s@.take(i as int));
            assert(s@.take(i + 1).last() == s@[i as int]);
        }
        acc = acc + step;
        i += 1;
    }
    proof {
        assert(s@.take(n as int) =~= s@);
    }
    acc
}

/// The C expression text a literal value lowers to: a number renders as
/// its decimal numeral; a string literal renders as a call that duplicates
/// the literal's bytes plus a trailing terminator into the currently open
/// allocation region — the stated length is the UTF-8 byte count plus one.
pub open spec fn value_text(v: Value) -> Seq<char> {
    match v {
        Value::Number(n) => dec_str(n as nat),
        Value::String(s) => "area_memdup(\""@ + s@ + "\", "@ + dec_str(utf8_len(s@) + 1) + ")"@,
    }
}

impl Value {
    /// Lowers this literal value to its C expression text.
    pub fn to_string(&self) -> (r: String)
        ensures
            r@ == value_text(*self),
    {
        match self {
            Value::Number(n) => dec_of(*n as u128),
            Value::String(s) => {
                let mut out = "area_memdup(\"".to_owned();
                out.append(s.as_str());
                out.append("\", ");
                let n = s.as_str().unicode_len();
                let len = exec_utf8_len(s.as_str());
                proof {
                    assert(len <= 4 * (n as int));
                }
                let terminated = dec_of(len + 1);
                out.append(terminated.as_str());
                out.append(")");
                out
            },
        }
    }

    /// The numeric payload of a number value.
    pub fn to_number(&self) -> (r: u32)
        requires
            self is Number,
        ensures
            *self == Value::Number(r),
    {
        match self {
            Value::Number(n) => *n,
            Value::String(_) => {
                proof {
                    assert(false);
                }
                0
            },
        }
    }
}

} // verus!
