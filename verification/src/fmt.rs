//! The one-line text form of values, with verified decimal printing.
use crate::value::{Value, ValueView};
use vstd::prelude::*;

verus! {

/// The character of one decimal digit.
pub open spec fn digit_char(d: int) -> char {
    if d == 0 {
        '0'
    } else if d == 1 {
        '1'
    } else if d == 2 {
        '2'
    } else if d == 3 {
        '3'
    } else if d == 4 {
        '4'
    } else if d == 5 {
        '5'
    } else if d == 6 {
        '6'
    } else if d == 7 {
        '7'
    } else if d == 8 {
        '8'
    } else {
        '9'
    }
}

/// The decimal digits of a nonnegative number, most significant first.
pub open spec fn dec_digits(n: int) -> Seq<char>
    decreases n,
{
    if n < 10 {
        seq![digit_char(n)]
    } else {
        dec_digits(n / 10).push(digit_char(n % 10))
    }
}

/// The signed decimal form of a 64-bit number.
pub open spec fn dec_of_i64(n: i64) -> Seq<char> {
    if n < 0 {
        seq!['-'] + dec_digits(-(n as int))
    } else {
        dec_digits(n as int)
    }
}

/// The one-line text form of a value.
pub open spec fn display_of(v: ValueView) -> Seq<char>
    decreases v,
{
    match v {
        ValueView::Boolean(b) => if b {
            "true"@
        } else {
            "false"@
        },
        ValueView::Str(s) => s,
        ValueView::Null => "null"@,
        ValueView::Block(name) => "'"@ + name,
        ValueView::Number(n) => dec_of_i64(n),
        ValueView::Pointer(p) => dec_digits(p as int) + "->"@,
        ValueView::Exception(inner) => "exception("@ + display_of(*inner) + ")"@,
        ValueView::Atom(a) => ":"@ + a,
    }
}

/// One digit as text.
fn digit_str(d: u64) -> (r: &'static str)
    requires
        d < 10,
    ensures
        r@ == seq![digit_char(d as int)],
{
    proof {
        reveal_strlit("0");
        reveal_strlit("1");
        reveal_strlit("2");
        reveal_strlit("3");
        reveal_strlit("4");
        reveal_strlit("5");
        reveal_strlit("6");
        reveal_strlit("7");
        reveal_strlit("8");
        reveal_strlit("9");
    }
    let r = if d == 0 {
        "0"
    } else if d == 1 {
        "1"
    } else if d == 2 {
        "2"
    } else if d == 3 {
        "3"
    } else if d == 4 {
        "4"
    } else if d == 5 {
        "5"
    } else if d == 6 {
        "6"
    } else if d == 7 {
        "7"
    } else if d == 8 {
        "8"
    } else {
        "9"
    };
    proof {
        assert(r@ =~= seq![digit_char(d as int)]);
    }
    r
}

/// The decimal digits of a number, most significant first.
pub fn fmt_u64(x: u64) -> (r: String)
    ensures
        r@ == dec_digits(x as int),
    decreases x,
{
    if x < 10 {
        String::from_str(digit_str(x))
    } else {
        let mut s = fmt_u64(x / 10);
        s.append(digit_str(x % 10));
        proof {
            assert(s@ =~= dec_digits(x as int));
        }
        s
    }
}

/// The signed decimal form of a number.
pub fn fmt_i64(x: i64) -> (r: String)
    ensures
        r@ == dec_of_i64(x),
{
    if x < 0 {
        let mag: u64 = (-(x as i128)) as u64;
        let mut s = String::from_str("-");
        s.append(fmt_u64(mag).as_str());
        proof {
            reveal_strlit("-");
            assert("-"@ =~= seq!['-']);
            assert(s@ =~= dec_of_i64(x));
        }
        s
    } else {
        fmt_u64(x as u64)
    }
}

/// The one-line text form of a value.
pub fn display_value(v: &Value) -> (r: String)
    ensures
        r@ == display_of(v@),
    decreases v,
{
    match v {
        Value::Boolean(b) => {
            if *b {
                String::from_str("true")
            } else {
                String::from_str("false")
            }
        },
        Value::String(s) => s.clone(),
        Value::Null => String::from_str("null"),
        Value::Block(name) => {
            let mut s = String::from_str("'");
            s.append(name.as_str());
            proof {
                reveal_strlit("'");
                assert(s@ =~= display_of(v@));
            }
            s
        },
        Value::Number(n) => fmt_i64(*n),
        Value::Pointer(p) => {
            let mut s = fmt_u64(*p as u64);
            s.append("->");
            proof {
                assert(s@ =~= display_of(v@));
            }
            s
        },
        Value::Exception(inner) => {
            let mut s = String::from_str("exception(");
            let body = display_value(inner);
            s.append(body.as_str());
            s.append(")");
            proof {
                assert(s@ =~= display_of(v@));
            }
            s
        },
        Value::Atom(a) => {
            let mut s = String::from_str(":");
            s.append(a.as_str());
            proof {
                reveal_strlit(":");
                assert(s@ =~= display_of(v@));
            }
            s
        },
    }
}

} // verus!
