//! The binary form of a program: a length-prefixed stream of tagged
//! records (Root wrapping Block, Annotation and SourceMap records), with
//! a serializer, a parser that skips unknown record tags, and the proof
//! that parsing inverts serialization.
use crate::ir::{codes_view, Block, BlockRunType, BlockView, CodeView, IRCode, IRError, Position, IR};
use crate::names::assoc_map;
use crate::value::{Value, ValueView};
use vstd::bytes::*;
use vstd::prelude::*;
use vstd::utf8::*;

verus! {

/// Errors of reading a serialized program.
#[derive(Debug, Clone, PartialEq, Eq)]
pub enum SerializationError {
    ExpectedRoot,
    UnexpectedEnd,
    InvalidEncoding,
    IRError(IRError),
}

/// One more than the largest length a 64-bit prefix can carry.
pub open spec fn len_cap() -> int {
    0x1_0000_0000_0000_0000
}

// ---------------------------------------------------------------------
// Serialized shapes.
// ---------------------------------------------------------------------
pub open spec fn ser_u64(x: u64) -> Seq<u8> {
    spec_u64_to_le_bytes(x)
}

pub open spec fn ser_str(s: Seq<char>) -> Seq<u8> {
    ser_u64(encode_utf8(s).len() as u64) + encode_utf8(s)
}

pub open spec fn ser_bool(v: bool) -> Seq<u8> {
    seq![if v { 1u8 } else { 0u8 }]
}

pub open spec fn ser_run_type(t: BlockRunType) -> Seq<u8> {
    seq![
        match t {
            BlockRunType::Once => 0u8,
            BlockRunType::Unique => 1u8,
        },
    ]
}

pub open spec fn ser_value(v: ValueView) -> Seq<u8>
    decreases v,
{
    match v {
        ValueView::Number(n) => seq![0u8] + ser_u64(n as u64),
        ValueView::Str(s) => seq![1u8] + ser_str(s),
        ValueView::Boolean(b) => seq![2u8] + ser_bool(b),
        ValueView::Pointer(p) => seq![3u8] + ser_u64(p as u64),
        ValueView::Block(s) => seq![4u8] + ser_str(s),
        ValueView::Exception(inner) => seq![5u8] + ser_value(*inner),
        ValueView::Atom(s) => seq![6u8] + ser_str(s),
        ValueView::Null => seq![7u8],
    }
}

/// The text fits a 64-bit length prefix.
pub open spec fn str_ok(s: Seq<char>) -> bool {
    encode_utf8(s).len() < len_cap()
}

pub open spec fn value_ok(v: ValueView) -> bool
    decreases v,
{
    match v {
        ValueView::Number(_) => true,
        ValueView::Str(s) => str_ok(s),
        ValueView::Boolean(_) => true,
        ValueView::Pointer(_) => true,
        ValueView::Block(s) => str_ok(s),
        ValueView::Exception(inner) => value_ok(*inner),
        ValueView::Atom(s) => str_ok(s),
        ValueView::Null => true,
    }
}

// ---------------------------------------------------------------------
// The parse of each shape: the value read and the position after it.
// ---------------------------------------------------------------------
pub open spec fn parse_u64(b: Seq<u8>, pos: int) -> Option<(u64, int)> {
    if 0 <= pos && pos + 8 <= b.len() {
        Some((spec_u64_from_le_bytes(b.subrange(pos, pos + 8)), pos + 8))
    } else {
        None
    }
}

pub open spec fn parse_str(b: Seq<u8>, pos: int) -> Option<(Seq<char>, int)> {
    match parse_u64(b, pos) {
        None => None,
        Some((n, p1)) => {
            if p1 + n <= b.len() {
                let bytes = b.subrange(p1, p1 + n);
                if valid_utf8(bytes) {
                    Some((decode_utf8(bytes), p1 + n))
                } else {
                    None
                }
            } else {
                None
            }
        },
    }
}

pub open spec fn parse_bool(b: Seq<u8>, pos: int) -> Option<(bool, int)> {
    if 0 <= pos && pos < b.len() && (b[pos] == 0 || b[pos] == 1) {
        Some((b[pos] == 1, pos + 1))
    } else {
        None
    }
}

pub open spec fn parse_run_type(b: Seq<u8>, pos: int) -> Option<(BlockRunType, int)> {
    if 0 <= pos && pos < b.len() && b[pos] == 0 {
        Some((BlockRunType::Once, pos + 1))
    } else if 0 <= pos && pos < b.len() && b[pos] == 1 {
        Some((BlockRunType::Unique, pos + 1))
    } else {
        None
    }
}

pub open spec fn parse_value(b: Seq<u8>, pos: int) -> Option<(ValueView, int)>
    decreases b.len() - pos,
{
    if 0 <= pos && pos < b.len() {
        let tag = b[pos];
        let p = pos + 1;
        if tag == 0 {
            match parse_u64(b, p) {
                Some((x, p2)) => Some((ValueView::Number(x as i64), p2)),
                None => None,
            }
        } else if tag == 1 {
            match parse_str(b, p) {
                Some((s, p2)) => Some((ValueView::Str(s), p2)),
                None => None,
            }
        } else if tag == 2 {
            match parse_bool(b, p) {
                Some((v, p2)) => Some((ValueView::Boolean(v), p2)),
                None => None,
            }
        } else if tag == 3 {
            match parse_u64(b, p) {
                Some((x, p2)) => if x <= usize::MAX as u64 {
                    Some((ValueView::Pointer(x as usize), p2))
                } else {
                    None
                },
                None => None,
            }
        } else if tag == 4 {
            match parse_str(b, p) {
                Some((s, p2)) => Some((ValueView::Block(s), p2)),
                None => None,
            }
        } else if tag == 5 {
            match parse_value(b, p) {
                Some((v, p2)) => Some((ValueView::Exception(Box::new(v)), p2)),
                None => None,
            }
        } else if tag == 6 {
            match parse_str(b, p) {
                Some((s, p2)) => Some((ValueView::Atom(s), p2)),
                None => None,
            }
        } else if tag == 7 {
            Some((ValueView::Null, p))
        } else {
            None
        }
    } else {
        None
    }
}

// ---------------------------------------------------------------------
// Parsing inverts serialization, shape by shape.
// ---------------------------------------------------------------------
pub proof fn lemma_parse_u64(b: Seq<u8>, pos: int, x: u64)
    requires
        0 <= pos,
        pos + 8 <= b.len(),
        b.subrange(pos, pos + 8) == ser_u64(x),
    ensures
        parse_u64(b, pos) == Some((x, pos + 8)),
{
    lemma_auto_spec_u64_to_from_le_bytes();
}

pub proof fn lemma_ser_u64_len(x: u64)
    ensures
        ser_u64(x).len() == 8,
{
    lemma_auto_spec_u64_to_from_le_bytes();
}

pub proof fn lemma_parse_str(b: Seq<u8>, pos: int, s: Seq<char>)
    requires
        0 <= pos,
        str_ok(s),
        pos + ser_str(s).len() <= b.len(),
        b.subrange(pos, pos + ser_str(s).len()) == ser_str(s),
    ensures
        parse_str(b, pos) == Some((s, pos + ser_str(s).len())),
{
    broadcast use encode_utf8_valid_utf8, encode_utf8_decode_utf8;

    let e = encode_utf8(s);
    let n = e.len() as u64;
    lemma_ser_u64_len(n);
    let whole = b.subrange(pos, pos + ser_str(s).len());
    assert(whole.subrange(0, 8) =~= b.subrange(pos, pos + 8));
    assert(ser_str(s).subrange(0, 8) =~= ser_u64(n));
    lemma_parse_u64(b, pos, n);
    let p1 = pos + 8;
    assert(b.subrange(p1, p1 + n as int) =~= ser_str(s).subrange(8, ser_str(s).len() as int));
    assert(ser_str(s).subrange(8, ser_str(s).len() as int) =~= e);
    assert(valid_utf8(e));
    assert(decode_utf8(e) == s);
}

pub proof fn lemma_parse_value(b: Seq<u8>, pos: int, v: ValueView)
    requires
        0 <= pos,
        value_ok(v),
        pos + ser_value(v).len() <= b.len(),
        b.subrange(pos, pos + ser_value(v).len()) == ser_value(v),
    ensures
        parse_value(b, pos) == Some((v, pos + ser_value(v).len())),
    decreases v,
{
    let sv = ser_value(v);
    assert(b[pos] == sv[0]);
    let p = pos + 1;
    match v {
        ValueView::Number(n) => {
            lemma_ser_u64_len(n as u64);
            assert(b.subrange(p, p + 8) =~= sv.subrange(1, 9));
            assert(sv.subrange(1, 9) =~= ser_u64(n as u64));
            lemma_parse_u64(b, p, n as u64);
            assert((n as u64) as i64 == n) by (bit_vector);
        },
        ValueView::Str(s) => {
            assert(b.subrange(p, p + ser_str(s).len()) =~= sv.subrange(1, sv.len() as int));
            assert(sv.subrange(1, sv.len() as int) =~= ser_str(s));
            lemma_parse_str(b, p, s);
        },
        ValueView::Boolean(v0) => {
            assert(b[p] == sv[1]);
        },
        ValueView::Pointer(q) => {
            lemma_ser_u64_len(q as u64);
            assert(b.subrange(p, p + 8) =~= sv.subrange(1, 9));
            assert(sv.subrange(1, 9) =~= ser_u64(q as u64));
            lemma_parse_u64(b, p, q as u64);
            assert(q as u64 <= usize::MAX as u64);
            assert((q as u64) as usize == q);
        },
        ValueView::Block(s) => {
            assert(b.subrange(p, p + ser_str(s).len()) =~= sv.subrange(1, sv.len() as int));
            assert(sv.subrange(1, sv.len() as int) =~= ser_str(s));
            lemma_parse_str(b, p, s);
        },
        ValueView::Exception(inner) => {
            assert(b.subrange(p, p + ser_value(*inner).len()) =~= sv.subrange(1, sv.len() as int));
            assert(sv.subrange(1, sv.len() as int) =~= ser_value(*inner));
            lemma_parse_value(b, p, *inner);
        },
        ValueView::Atom(s) => {
            assert(b.subrange(p, p + ser_str(s).len()) =~= sv.subrange(1, sv.len() as int));
            assert(sv.subrange(1, sv.len() as int) =~= ser_str(s));
            lemma_parse_str(b, p, s);
        },
        ValueView::Null => {},
    }
}

// ---------------------------------------------------------------------
// The serializer, appending to a byte vector.
// ---------------------------------------------------------------------
pub fn write_u64(out: &mut Vec<u8>, x: u64)
    ensures
        final(out)@ == old(out)@ + ser_u64(x),
{
    let mut b = u64_to_le_bytes(x);
    out.append(&mut b);
    proof {
        assert(out@ =~= old(out)@ + ser_u64(x));
    }
}

pub fn write_str(out: &mut Vec<u8>, s: &String)
    ensures
        final(out)@ == old(out)@ + ser_str(s@),
        str_ok(s@),
{
    let bs = s.as_str().as_bytes();
    let n = bs.len();
    write_u64(out, n as u64);
    out.extend_from_slice(bs);
    proof {
        assert(out@ =~= old(out)@ + ser_str(s@));
    }
}

pub fn write_bool(out: &mut Vec<u8>, v: bool)
    ensures
        final(out)@ == old(out)@ + ser_bool(v),
{
    out.push(if v { 1u8 } else { 0u8 });
    proof {
        assert(out@ =~= old(out)@ + ser_bool(v));
    }
}

pub fn write_run_type(out: &mut Vec<u8>, t: &BlockRunType)
    ensures
        final(out)@ == old(out)@ + ser_run_type(*t),
{
    out.push(
        match t {
            BlockRunType::Once => 0u8,
            BlockRunType::Unique => 1u8,
        },
    );
    proof {
        assert(out@ =~= old(out)@ + ser_run_type(*t));
    }
}

pub fn write_value(out: &mut Vec<u8>, v: &Value)
    ensures
        final(out)@ == old(out)@ + ser_value(v@),
        value_ok(v@),
    decreases v,
{
    match v {
        Value::Number(n) => {
            out.push(0u8);
            write_u64(out, #[verifier::truncate] (*n as u64));
            proof {
                assert(out@ =~= old(out)@ + ser_value(v@));
            }
        },
        Value::String(s) => {
            out.push(1u8);
            write_str(out, s);
            proof {
                assert(out@ =~= old(out)@ + ser_value(v@));
            }
        },
        Value::Boolean(x) => {
            out.push(2u8);
            write_bool(out, *x);
            proof {
                assert(out@ =~= old(out)@ + ser_value(v@));
            }
        },
        Value::Pointer(p) => {
            out.push(3u8);
            write_u64(out, *p as u64);
            proof {
                assert(out@ =~= old(out)@ + ser_value(v@));
            }
        },
        Value::Block(s) => {
            out.push(4u8);
            write_str(out, s);
            proof {
                assert(out@ =~= old(out)@ + ser_value(v@));
            }
        },
        Value::Exception(inner) => {
            out.push(5u8);
            write_value(out, inner);
            proof {
                assert(out@ =~= old(out)@ + ser_value(v@));
            }
        },
        Value::Atom(s) => {
            out.push(6u8);
            write_str(out, s);
            proof {
                assert(out@ =~= old(out)@ + ser_value(v@));
            }
        },
        Value::Null => {
            out.push(7u8);
            proof {
                assert(out@ =~= old(out)@ + ser_value(v@));
            }
        },
    }
}

// ---------------------------------------------------------------------
// The reader.
// ---------------------------------------------------------------------
pub fn read_u64(b: &Vec<u8>, pos: usize) -> (r: Result<(u64, usize), SerializationError>)
    ensures
        match r {
            Ok((x, p)) => parse_u64(b@, pos as int) == Some((x, p as int)),
            Err(_) => parse_u64(b@, pos as int) is None,
        },
{
    if pos > b.len() || b.len() - pos < 8 {
        return Err(SerializationError::UnexpectedEnd);
    }
    let s = vstd::slice::slice_subrange(b.as_slice(), pos, pos + 8);
    let x = u64_from_le_bytes(s);
    Ok((x, pos + 8))
}

/// Relies on String::from_utf8: builds the string whose UTF-8 encoding is
/// the given bytes, and fails exactly when the bytes are not valid UTF-8.
#[verifier::external_body]
fn string_from_utf8(v: Vec<u8>) -> (r: Option<String>)
    ensures
        match r {
            Some(s) => valid_utf8(v@) && s@ == decode_utf8(v@),
            None => !valid_utf8(v@),
        },
{
    String::from_utf8(v).ok()
}

pub fn read_str(b: &Vec<u8>, pos: usize) -> (r: Result<(String, usize), SerializationError>)
    ensures
        match r {
            Ok((s, p)) => parse_str(b@, pos as int) == Some((s@, p as int)),
            Err(_) => parse_str(b@, pos as int) is None,
        },
{
    let (n, p1) = match read_u64(b, pos) {
        Ok(v) => v,
        Err(e) => {
            return Err(e);
        },
    };
    let rem: u64 = (b.len() - p1) as u64;
    if rem < n {
        return Err(SerializationError::UnexpectedEnd);
    }
    let n_usize = n as usize;
    let s = vstd::slice::slice_subrange(b.as_slice(), p1, p1 + n_usize);
    let bytes = vstd::slice::slice_to_vec(s);
    match string_from_utf8(bytes) {
        Some(st) => Ok((st, p1 + n_usize)),
        None => Err(SerializationError::InvalidEncoding),
    }
}

pub fn read_bool(b: &Vec<u8>, pos: usize) -> (r: Result<(bool, usize), SerializationError>)
    ensures
        match r {
            Ok((v, p)) => parse_bool(b@, pos as int) == Some((v, p as int)),
            Err(_) => parse_bool(b@, pos as int) is None,
        },
{
    if pos >= b.len() {
        return Err(SerializationError::UnexpectedEnd);
    }
    let t = b[pos];
    if t == 0 {
        Ok((false, pos + 1))
    } else if t == 1 {
        Ok((true, pos + 1))
    } else {
        Err(SerializationError::InvalidEncoding)
    }
}

pub fn read_run_type(b: &Vec<u8>, pos: usize) -> (r: Result<
    (BlockRunType, usize),
    SerializationError,
>)
    ensures
        match r {
            Ok((t, p)) => parse_run_type(b@, pos as int) == Some((t, p as int)),
            Err(_) => parse_run_type(b@, pos as int) is None,
        },
{
    if pos >= b.len() {
        return Err(SerializationError::UnexpectedEnd);
    }
    let t = b[pos];
    if t == 0 {
        Ok((BlockRunType::Once, pos + 1))
    } else if t == 1 {
        Ok((BlockRunType::Unique, pos + 1))
    } else {
        Err(SerializationError::InvalidEncoding)
    }
}

pub fn read_value(b: &Vec<u8>, pos: usize) -> (r: Result<(Value, usize), SerializationError>)
    ensures
        match r {
            Ok((v, p)) => parse_value(b@, pos as int) == Some((v@, p as int)),
            Err(_) => parse_value(b@, pos as int) is None,
        },
    decreases b@.len() - pos,
{
    if pos >= b.len() {
        return Err(SerializationError::UnexpectedEnd);
    }
    let tag = b[pos];
    let p = pos + 1;
    if tag == 0 {
        match read_u64(b, p) {
            Ok((x, p2)) => Ok((Value::Number(#[verifier::truncate] (x as i64)), p2)),
            Err(e) => Err(e),
        }
    } else if tag == 1 {
        match read_str(b, p) {
            Ok((s, p2)) => Ok((Value::String(s), p2)),
            Err(e) => Err(e),
        }
    } else if tag == 2 {
        match read_bool(b, p) {
            Ok((v, p2)) => Ok((Value::Boolean(v), p2)),
            Err(e) => Err(e),
        }
    } else if tag == 3 {
        match read_u64(b, p) {
            Ok((x, p2)) => {
                if x <= usize::MAX as u64 {
                    Ok((Value::Pointer(x as usize), p2))
                } else {
                    Err(SerializationError::InvalidEncoding)
                }
            },
            Err(e) => Err(e),
        }
    } else if tag == 4 {
        match read_str(b, p) {
            Ok((s, p2)) => Ok((Value::Block(s), p2)),
            Err(e) => Err(e),
        }
    } else if tag == 5 {
        match read_value(b, p) {
            Ok((v, p2)) => Ok((Value::Exception(Box::new(v)), p2)),
            Err(e) => Err(e),
        }
    } else if tag == 6 {
        match read_str(b, p) {
            Ok((s, p2)) => Ok((Value::Atom(s), p2)),
            Err(e) => Err(e),
        }
    } else if tag == 7 {
        Ok((Value::Null, p))
    } else {
        Err(SerializationError::InvalidEncoding)
    }
}


// ---------------------------------------------------------------------
// Ops and op lists.
// ---------------------------------------------------------------------
pub open spec fn ser_code(c: CodeView) -> Seq<u8>
    decreases c, 0int,
{
    match c {
        CodeView::PutValue(v) => seq![0u8] + ser_value(v),
        CodeView::LocalBlock(n, t, body) => seq![1u8] + ser_str(n) + ser_run_type(t) + ser_codes(
            body,
        ),
        CodeView::Call(n) => seq![2u8] + ser_str(n),
        CodeView::While(n) => seq![3u8] + ser_str(n),
        CodeView::If(n) => seq![4u8] + ser_str(n),
        CodeView::Return => seq![5u8],
        CodeView::ReturnLocal => seq![6u8],
    }
}

pub open spec fn ser_code_list(s: Seq<CodeView>) -> Seq<u8>
    decreases s, 0int,
{
    if s.len() == 0 {
        Seq::empty()
    } else {
        ser_code_list(s.drop_last()) + ser_code(s.last())
    }
}

/// An op list is written as a 64-bit count and then the ops.
pub open spec fn ser_codes(s: Seq<CodeView>) -> Seq<u8>
    decreases s, 1int,
{
    ser_u64(s.len() as u64) + ser_code_list(s)
}

pub open spec fn code_ok(c: CodeView) -> bool
    decreases c, 0int,
{
    match c {
        CodeView::PutValue(v) => value_ok(v),
        CodeView::LocalBlock(n, t, body) => str_ok(n) && codes_ok(body),
        CodeView::Call(n) => str_ok(n),
        CodeView::While(n) => str_ok(n),
        CodeView::If(n) => str_ok(n),
        CodeView::Return => true,
        CodeView::ReturnLocal => true,
    }
}

pub open spec fn codes_ok(s: Seq<CodeView>) -> bool
    decreases s, 1int,
{
    s.len() < len_cap() && (forall|i: int| 0 <= i < s.len() ==> code_ok(#[trigger] s[i]))
}

pub open spec fn parse_code(b: Seq<u8>, pos: int) -> Option<(CodeView, int)>
    decreases b.len() - pos, 0int, 0int,
{
    if 0 <= pos && pos < b.len() {
        let tag = b[pos];
        let p = pos + 1;
        if tag == 0 {
            match parse_value(b, p) {
                Some((v, p2)) => Some((CodeView::PutValue(v), p2)),
                None => None,
            }
        } else if tag == 1 {
            match parse_str(b, p) {
                Some((n, p1)) => match parse_run_type(b, p1) {
                    Some((t, p2)) => if pos < p2 && p2 <= b.len() {
                        match parse_codes(b, p2) {
                            Some((body, p3)) => Some((CodeView::LocalBlock(n, t, body), p3)),
                            None => None,
                        }
                    } else {
                        None
                    },
                    None => None,
                },
                None => None,
            }
        } else if tag == 2 {
            match parse_str(b, p) {
                Some((n, p2)) => Some((CodeView::Call(n), p2)),
                None => None,
            }
        } else if tag == 3 {
            match parse_str(b, p) {
                Some((n, p2)) => Some((CodeView::While(n), p2)),
                None => None,
            }
        } else if tag == 4 {
            match parse_str(b, p) {
                Some((n, p2)) => Some((CodeView::If(n), p2)),
                None => None,
            }
        } else if tag == 5 {
            Some((CodeView::Return, p))
        } else if tag == 6 {
            Some((CodeView::ReturnLocal, p))
        } else {
            None
        }
    } else {
        None
    }
}

pub open spec fn parse_codes(b: Seq<u8>, pos: int) -> Option<(Seq<CodeView>, int)>
    decreases b.len() - pos, 2int, 0int,
{
    match parse_u64(b, pos) {
        Some((m, p1)) => parse_code_list(b, p1, m as int),
        None => None,
    }
}

pub open spec fn parse_code_list(b: Seq<u8>, pos: int, m: int) -> Option<(Seq<CodeView>, int)>
    decreases b.len() - pos, 1int, m,
{
    if m <= 0 {
        if m == 0 && 0 <= pos {
            Some((Seq::empty(), pos))
        } else {
            None
        }
    } else {
        match parse_code(b, pos) {
            Some((c, p1)) => if pos < p1 && p1 <= b.len() {
                match parse_code_list(b, p1, m - 1) {
                    Some((rest, p2)) => Some((seq![c] + rest, p2)),
                    None => None,
                }
            } else {
                None
            },
            None => None,
        }
    }
}

/// Every op's written form starts with its tag byte.
pub proof fn lemma_ser_code_len(c: CodeView)
    ensures
        ser_code(c).len() >= 1,
        ser_code(c)[0] == match c {
            CodeView::PutValue(_) => 0u8,
            CodeView::LocalBlock(_, _, _) => 1u8,
            CodeView::Call(_) => 2u8,
            CodeView::While(_) => 3u8,
            CodeView::If(_) => 4u8,
            CodeView::Return => 5u8,
            CodeView::ReturnLocal => 6u8,
        },
{
}

/// An op list's written form splits at its first op.
pub proof fn lemma_ser_code_list_first(s: Seq<CodeView>)
    requires
        s.len() > 0,
    ensures
        ser_code_list(s) == ser_code(s[0]) + ser_code_list(s.drop_first()),
    decreases s.len(),
{
    if s.len() == 1 {
        assert(s.drop_last().len() == 0);
        assert(s.drop_first().len() == 0);
        assert(s.last() == s[0]);
        assert(ser_code_list(s.drop_first()) =~= Seq::<u8>::empty());
        assert(ser_code_list(s.drop_last()) =~= Seq::<u8>::empty());
        assert(ser_code_list(s) =~= ser_code(s[0]) + ser_code_list(s.drop_first()));
    } else {
        lemma_ser_code_list_first(s.drop_last());
        assert(s.drop_last()[0] == s[0]);
        assert(s.drop_first().drop_last() =~= s.drop_last().drop_first());
        assert(s.drop_first().last() == s.last());
        assert(ser_code_list(s.drop_first()) == ser_code_list(s.drop_first().drop_last())
            + ser_code(s.drop_first().last()));
        assert(ser_code_list(s) =~= ser_code(s[0]) + ser_code_list(s.drop_first()));
    }
}

pub proof fn lemma_parse_code(b: Seq<u8>, pos: int, c: CodeView)
    requires
        0 <= pos,
        code_ok(c),
        pos + ser_code(c).len() <= b.len(),
        b.subrange(pos, pos + ser_code(c).len()) == ser_code(c),
    ensures
        parse_code(b, pos) == Some((c, pos + ser_code(c).len())),
    decreases c, 0int,
{
    let sv = ser_code(c);
    assert(b[pos] == sv[0]);
    let p = pos + 1;
    match c {
        CodeView::PutValue(v) => {
            assert(b.subrange(p, p + ser_value(v).len()) =~= sv.subrange(1, sv.len() as int));
            assert(sv.subrange(1, sv.len() as int) =~= ser_value(v));
            lemma_parse_value(b, p, v);
        },
        CodeView::LocalBlock(n, t, body) => {
            let sn = ser_str(n);
            let sc = ser_codes(body);
            let p1 = p + sn.len();
            let p2 = p1 + 1;
            assert(b.subrange(p, p + sn.len()) =~= sv.subrange(1, 1 + sn.len() as int));
            assert(sv.subrange(1, 1 + sn.len() as int) =~= sn);
            lemma_parse_str(b, p, n);
            assert(b[p1] == sv[1 + sn.len() as int]);
            assert(sv[1 + sn.len() as int] == ser_run_type(t)[0]);
            assert(parse_run_type(b, p1) == Some((t, p2)));
            assert(b.subrange(p2, p2 + sc.len()) =~= sv.subrange(
                2 + sn.len() as int,
                sv.len() as int,
            ));
            assert(sv.subrange(2 + sn.len() as int, sv.len() as int) =~= sc);
            lemma_parse_codes(b, p2, body);
        },
        CodeView::Call(n) => {
            assert(b.subrange(p, p + ser_str(n).len()) =~= sv.subrange(1, sv.len() as int));
            assert(sv.subrange(1, sv.len() as int) =~= ser_str(n));
            lemma_parse_str(b, p, n);
        },
        CodeView::While(n) => {
            assert(b.subrange(p, p + ser_str(n).len()) =~= sv.subrange(1, sv.len() as int));
            assert(sv.subrange(1, sv.len() as int) =~= ser_str(n));
            lemma_parse_str(b, p, n);
        },
        CodeView::If(n) => {
            assert(b.subrange(p, p + ser_str(n).len()) =~= sv.subrange(1, sv.len() as int));
            assert(sv.subrange(1, sv.len() as int) =~= ser_str(n));
            lemma_parse_str(b, p, n);
        },
        CodeView::Return => {},
        CodeView::ReturnLocal => {},
    }
}

pub proof fn lemma_parse_codes(b: Seq<u8>, pos: int, s: Seq<CodeView>)
    requires
        0 <= pos,
        codes_ok(s),
        pos + ser_codes(s).len() <= b.len(),
        b.subrange(pos, pos + ser_codes(s).len()) == ser_codes(s),
    ensures
        parse_codes(b, pos) == Some((s, pos + ser_codes(s).len())),
    decreases s, 1int,
{
    let n = s.len() as u64;
    lemma_ser_u64_len(n);
    assert(b.subrange(pos, pos + 8) =~= ser_codes(s).subrange(0, 8));
    assert(ser_codes(s).subrange(0, 8) =~= ser_u64(n));
    lemma_parse_u64(b, pos, n);
    let p1 = pos + 8;
    assert(b.subrange(p1, p1 + ser_code_list(s).len()) =~= ser_codes(s).subrange(
        8,
        ser_codes(s).len() as int,
    ));
    assert(ser_codes(s).subrange(8, ser_codes(s).len() as int) =~= ser_code_list(s));
    lemma_parse_code_list(b, p1, s);
    assert(n as int == s.len());
}

pub proof fn lemma_parse_code_list(b: Seq<u8>, pos: int, s: Seq<CodeView>)
    requires
        0 <= pos,
        codes_ok(s),
        pos + ser_code_list(s).len() <= b.len(),
        b.subrange(pos, pos + ser_code_list(s).len()) == ser_code_list(s),
    ensures
        parse_code_list(b, pos, s.len() as int) == Some((s, pos + ser_code_list(s).len())),
    decreases s, 0int,
{
    if s.len() == 0 {
    } else {
        lemma_ser_code_list_first(s);
        let c = s[0];
        let rest = s.drop_first();
        lemma_ser_code_len(c);
        assert(b.subrange(pos, pos + ser_code(c).len()) =~= ser_code_list(s).subrange(
            0,
            ser_code(c).len() as int,
        ));
        assert(ser_code_list(s).subrange(0, ser_code(c).len() as int) =~= ser_code(c));
        assert(code_ok(c));
        lemma_parse_code(b, pos, c);
        let p1 = pos + ser_code(c).len();
        assert(b.subrange(p1, p1 + ser_code_list(rest).len()) =~= ser_code_list(s).subrange(
            ser_code(c).len() as int,
            ser_code_list(s).len() as int,
        ));
        assert(ser_code_list(s).subrange(ser_code(c).len() as int, ser_code_list(s).len() as int)
            =~= ser_code_list(rest));
        assert(codes_ok(rest)) by {
            assert(forall|i: int|
                0 <= i < rest.len() ==> rest[i] == s[i + 1] && code_ok(#[trigger] s[i + 1]));
        }
        lemma_parse_code_list(b, p1, rest);
        assert(seq![c] + rest =~= s);
    }
}

// ---------------------------------------------------------------------
// Writing and reading op lists.
// ---------------------------------------------------------------------
pub fn write_code(out: &mut Vec<u8>, c: &IRCode)
    ensures
        final(out)@ == old(out)@ + ser_code(c@),
        code_ok(c@),
    decreases c, 0int,
{
    match c {
        IRCode::PutValue(v) => {
            out.push(0u8);
            write_value(out, v);
            proof {
                assert(out@ =~= old(out)@ + ser_code(c@));
            }
        },
        IRCode::LocalBlock(n, t, body) => {
            out.push(1u8);
            write_str(out, n);
            write_run_type(out, t);
            write_codes(out, body);
            proof {
                assert(out@ =~= old(out)@ + ser_code(c@));
            }
        },
        IRCode::Call(n) => {
            out.push(2u8);
            write_str(out, n);
            proof {
                assert(out@ =~= old(out)@ + ser_code(c@));
            }
        },
        IRCode::While(n) => {
            out.push(3u8);
            write_str(out, n);
            proof {
                assert(out@ =~= old(out)@ + ser_code(c@));
            }
        },
        IRCode::If(n) => {
            out.push(4u8);
            write_str(out, n);
            proof {
                assert(out@ =~= old(out)@ + ser_code(c@));
            }
        },
        IRCode::Return => {
            out.push(5u8);
            proof {
                assert(out@ =~= old(out)@ + ser_code(c@));
            }
        },
        IRCode::ReturnLocal => {
            out.push(6u8);
            proof {
                assert(out@ =~= old(out)@ + ser_code(c@));
            }
        },
    }
}

pub fn write_codes(out: &mut Vec<u8>, v: &Vec<IRCode>)
    ensures
        final(out)@ == old(out)@ + ser_codes(codes_view(v@)),
        codes_ok(codes_view(v@)),
    decreases v, 1int,
{
    let n = v.len();
    proof {
        crate::ir::lemma_codes_view(v@);
    }
    write_u64(out, n as u64);
    let mut i: usize = 0;
    while i < n
        invariant
            n == v@.len(),
            i <= n,
            out@ =~= old(out)@ + ser_u64(n as u64) + ser_code_list(codes_view(v@.take(i as int))),
            forall|j: int| 0 <= j < i ==> code_ok(#[trigger] codes_view(v@)[j]),
            codes_view(v@).len() == v@.len(),
            forall|j: int| 0 <= j < v@.len() ==> codes_view(v@)[j] == crate::ir::code_view(v@[j]),
        decreases n - i,
    {
        proof {
            assert(decreases_to!(v => v@[i as int]));
        }
        write_code(out, &v[i]);
        proof {
            let t1 = codes_view(v@.take(i as int + 1));
            assert(v@.take(i as int + 1).drop_last() =~= v@.take(i as int));
            assert(v@.take(i as int + 1).last() == v@[i as int]);
            assert(t1 == codes_view(v@.take(i as int)).push(crate::ir::code_view(v@[i as int])));
            assert(t1.drop_last() =~= codes_view(v@.take(i as int)));
            assert(t1.last() == crate::ir::code_view(v@[i as int]));
            assert(ser_code_list(t1) == ser_code_list(codes_view(v@.take(i as int))) + ser_code(
                crate::ir::code_view(v@[i as int]),
            ));
            assert(out@ =~= old(out)@ + ser_u64(n as u64) + ser_code_list(
                codes_view(v@.take(i as int + 1)),
            ));
        }
        i = i + 1;
    }
    proof {
        assert(v@.take(n as int) =~= v@);
        assert(out@ =~= old(out)@ + ser_codes(codes_view(v@)));
    }
}

pub fn read_code(b: &Vec<u8>, pos: usize) -> (r: Result<(IRCode, usize), SerializationError>)
    ensures
        match r {
            Ok((c, p)) => parse_code(b@, pos as int) == Some((c@, p as int)),
            Err(_) => parse_code(b@, pos as int) is None,
        },
    decreases b@.len() - pos, 0int,
{
    if pos >= b.len() {
        return Err(SerializationError::UnexpectedEnd);
    }
    let tag = b[pos];
    let p = pos + 1;
    if tag == 0 {
        match read_value(b, p) {
            Ok((v, p2)) => Ok((IRCode::PutValue(v), p2)),
            Err(e) => Err(e),
        }
    } else if tag == 1 {
        let (n, p1) = match read_str(b, p) {
            Ok(v) => v,
            Err(e) => {
                return Err(e);
            },
        };
        let (t, p2) = match read_run_type(b, p1) {
            Ok(v) => v,
            Err(e) => {
                return Err(e);
            },
        };
        if !(pos < p2 && p2 <= b.len()) {
            return Err(SerializationError::InvalidEncoding);
        }
        match read_codes(b, p2) {
            Ok((body, p3)) => Ok((IRCode::LocalBlock(n, t, body), p3)),
            Err(e) => Err(e),
        }
    } else if tag == 2 {
        match read_str(b, p) {
            Ok((n, p2)) => Ok((IRCode::Call(n), p2)),
            Err(e) => Err(e),
        }
    } else if tag == 3 {
        match read_str(b, p) {
            Ok((n, p2)) => Ok((IRCode::While(n), p2)),
            Err(e) => Err(e),
        }
    } else if tag == 4 {
        match read_str(b, p) {
            Ok((n, p2)) => Ok((IRCode::If(n), p2)),
            Err(e) => Err(e),
        }
    } else if tag == 5 {
        Ok((IRCode::Return, p))
    } else if tag == 6 {
        Ok((IRCode::ReturnLocal, p))
    } else {
        Err(SerializationError::InvalidEncoding)
    }
}

pub fn read_codes(b: &Vec<u8>, pos: usize) -> (r: Result<(Vec<IRCode>, usize), SerializationError>)
    ensures
        match r {
            Ok((v, p)) => parse_codes(b@, pos as int) == Some((codes_view(v@), p as int)),
            Err(_) => parse_codes(b@, pos as int) is None,
        },
    decreases b@.len() - pos, 1int,
{
    let ghost pos0 = pos as int;
    let (m, p1) = match read_u64(b, pos) {
        Ok(v) => v,
        Err(e) => {
            return Err(e);
        },
    };
    let mut acc: Vec<IRCode> = Vec::new();
    let mut cur: usize = p1;
    let mut j: u64 = 0;
    proof {
        crate::ir::lemma_codes_view(acc@);
    }
    while j < m
        invariant
            pos < p1 <= b@.len(),
            p1 <= cur <= b@.len(),
            j <= m,
            parse_u64(b@, pos0) == Some((m, p1 as int)),
            pos0 == pos as int,
            match parse_code_list(b@, cur as int, (m - j) as int) {
                Some((rest, p)) => parse_code_list(b@, p1 as int, m as int) == Some(
                    (codes_view(acc@) + rest, p),
                ),
                None => parse_code_list(b@, p1 as int, m as int) is None,
            },
        decreases m - j,
    {
        let (c, p2) = match read_code(b, cur) {
            Ok(v) => v,
            Err(e) => {
                proof {
                    assert(parse_code_list(b@, cur as int, (m - j) as int) is None);
                }
                return Err(e);
            },
        };
        if !(cur < p2 && p2 <= b.len()) {
            proof {
                assert(parse_code_list(b@, cur as int, (m - j) as int) is None);
            }
            return Err(SerializationError::InvalidEncoding);
        }
        proof {
            crate::ir::lemma_codes_view(acc@);
            crate::ir::lemma_codes_view(acc@.push(c));
            assert(acc@.push(c).take(acc@.len() as int) =~= acc@);
            match parse_code_list(b@, p2 as int, (m - j - 1) as int) {
                Some((rest, p)) => {
                    assert(parse_code_list(b@, cur as int, (m - j) as int) == Some(
                        (seq![c@] + rest, p),
                    ));
                    assert(codes_view(acc@.push(c)) =~= codes_view(acc@).push(c@));
                    assert(codes_view(acc@) + (seq![c@] + rest) =~= codes_view(acc@.push(c))
                        + rest);
                },
                None => {
                    assert(parse_code_list(b@, cur as int, (m - j) as int) is None);
                },
            }
        }
        acc.push(c);
        cur = p2;
        j = j + 1;
    }
    proof {
        assert(parse_code_list(b@, cur as int, 0int) == Some(
            (Seq::<CodeView>::empty(), cur as int),
        ));
        assert(codes_view(acc@) + Seq::<CodeView>::empty() =~= codes_view(acc@));
    }
    Ok((acc, cur))
}


// ---------------------------------------------------------------------
// Records and the document.
// ---------------------------------------------------------------------
/// The three entry lists of a document: blocks, annotations, positions.
pub type DocEntries = (
    Seq<(Seq<char>, BlockView)>,
    Seq<(Seq<char>, Seq<char>)>,
    Seq<(Seq<char>, crate::ir::PositionView)>,
);

pub open spec fn block_payload(name: Seq<char>, bv: BlockView) -> Seq<u8> {
    ser_str(name) + ser_bool(bv.global) + ser_run_type(bv.run_type) + ser_codes(bv.code)
}

pub open spec fn ser_block_record(name: Seq<char>, bv: BlockView) -> Seq<u8> {
    seq![1u8] + ser_u64(block_payload(name, bv).len() as u64) + block_payload(name, bv)
}

pub open spec fn ann_payload(name: Seq<char>, text: Seq<char>) -> Seq<u8> {
    ser_str(name) + ser_str(text)
}

pub open spec fn ser_ann_record(name: Seq<char>, text: Seq<char>) -> Seq<u8> {
    seq![2u8] + ser_u64(ann_payload(name, text).len() as u64) + ann_payload(name, text)
}

pub open spec fn sm_payload(name: Seq<char>, pv: crate::ir::PositionView) -> Seq<u8> {
    ser_str(name) + ser_str(pv.file) + ser_u64(pv.line) + ser_u64(pv.col)
}

pub open spec fn ser_sm_record(name: Seq<char>, pv: crate::ir::PositionView) -> Seq<u8> {
    seq![3u8] + ser_u64(sm_payload(name, pv).len() as u64) + sm_payload(name, pv)
}

pub open spec fn block_entry_ok(name: Seq<char>, bv: BlockView) -> bool {
    str_ok(name) && codes_ok(bv.code) && block_payload(name, bv).len() < len_cap()
}

pub open spec fn ann_entry_ok(name: Seq<char>, text: Seq<char>) -> bool {
    str_ok(name) && str_ok(text) && ann_payload(name, text).len() < len_cap()
}

pub open spec fn sm_entry_ok(name: Seq<char>, pv: crate::ir::PositionView) -> bool {
    str_ok(name) && str_ok(pv.file) && sm_payload(name, pv).len() < len_cap()
}

pub open spec fn ser_block_records(s: Seq<(Seq<char>, BlockView)>) -> Seq<u8>
    decreases s.len(),
{
    if s.len() == 0 {
        Seq::empty()
    } else {
        ser_block_records(s.drop_last()) + ser_block_record(s.last().0, s.last().1)
    }
}

pub open spec fn ser_ann_records(s: Seq<(Seq<char>, Seq<char>)>) -> Seq<u8>
    decreases s.len(),
{
    if s.len() == 0 {
        Seq::empty()
    } else {
        ser_ann_records(s.drop_last()) + ser_ann_record(s.last().0, s.last().1)
    }
}

pub open spec fn ser_sm_records(s: Seq<(Seq<char>, crate::ir::PositionView)>) -> Seq<u8>
    decreases s.len(),
{
    if s.len() == 0 {
        Seq::empty()
    } else {
        ser_sm_records(s.drop_last()) + ser_sm_record(s.last().0, s.last().1)
    }
}

/// The whole document: a Root tag, the record count, and the records.
pub open spec fn ser_document(
    bs: Seq<(Seq<char>, BlockView)>,
    ans: Seq<(Seq<char>, Seq<char>)>,
    sms: Seq<(Seq<char>, crate::ir::PositionView)>,
) -> Seq<u8> {
    seq![0u8] + ser_u64((bs.len() + ans.len() + sms.len()) as u64) + ser_block_records(bs)
        + ser_ann_records(ans) + ser_sm_records(sms)
}

/// Every entry fits its length prefixes.
pub open spec fn doc_ok(
    bs: Seq<(Seq<char>, BlockView)>,
    ans: Seq<(Seq<char>, Seq<char>)>,
    sms: Seq<(Seq<char>, crate::ir::PositionView)>,
) -> bool {
    &&& bs.len() + ans.len() + sms.len() < len_cap()
    &&& forall|i: int| 0 <= i < bs.len() ==> block_entry_ok((#[trigger] bs[i]).0, bs[i].1)
    &&& forall|i: int| 0 <= i < ans.len() ==> ann_entry_ok((#[trigger] ans[i]).0, ans[i].1)
    &&& forall|i: int| 0 <= i < sms.len() ==> sm_entry_ok((#[trigger] sms[i]).0, sms[i].1)
}

/// One parsed record.
pub enum RecordView {
    Block(Seq<char>, BlockView),
    Annotation(Seq<char>, Seq<char>),
    SourceMap(Seq<char>, crate::ir::PositionView),
    Skip,
}

pub open spec fn parse_record(b: Seq<u8>, pos: int) -> Option<(RecordView, int)> {
    if 0 <= pos && pos < b.len() {
        let tag = b[pos];
        match parse_u64(b, pos + 1) {
            Some((len, p1)) => {
                let end = p1 + len;
                if end <= b.len() {
                    if tag == 1 {
                        match parse_str(b, p1) {
                            Some((name, q1)) => match parse_bool(b, q1) {
                                Some((g, q2)) => match parse_run_type(b, q2) {
                                    Some((t, q3)) => match parse_codes(b, q3) {
                                        Some((code, q4)) => if q4 == end {
                                            Some(
                                                (
                                                    RecordView::Block(
                                                        name,
                                                        BlockView { global: g, run_type: t, code },
                                                    ),
                                                    end,
                                                ),
                                            )
                                        } else {
                                            None
                                        },
                                        None => None,
                                    },
                                    None => None,
                                },
                                None => None,
                            },
                            None => None,
                        }
                    } else if tag == 2 {
                        match parse_str(b, p1) {
                            Some((name, q1)) => match parse_str(b, q1) {
                                Some((text, q2)) => if q2 == end {
                                    Some((RecordView::Annotation(name, text), end))
                                } else {
                                    None
                                },
                                None => None,
                            },
                            None => None,
                        }
                    } else if tag == 3 {
                        match parse_str(b, p1) {
                            Some((name, q1)) => match parse_str(b, q1) {
                                Some((file, q2)) => match parse_u64(b, q2) {
                                    Some((line, q3)) => match parse_u64(b, q3) {
                                        Some((col, q4)) => if q4 == end {
                                            Some(
                                                (
                                                    RecordView::SourceMap(
                                                        name,
                                                        crate::ir::PositionView { file, line, col },
                                                    ),
                                                    end,
                                                ),
                                            )
                                        } else {
                                            None
                                        },
                                        None => None,
                                    },
                                    None => None,
                                },
                                None => None,
                            },
                            None => None,
                        }
                    } else {
                        Some((RecordView::Skip, end))
                    }
                } else {
                    None
                }
            },
            None => None,
        }
    } else {
        None
    }
}

pub open spec fn parse_records(b: Seq<u8>, pos: int, m: int) -> Option<(DocEntries, int)>
    decreases b.len() - pos, m,
{
    if m <= 0 {
        if m == 0 && 0 <= pos {
            Some(((Seq::empty(), Seq::empty(), Seq::empty()), pos))
        } else {
            None
        }
    } else {
        match parse_record(b, pos) {
            Some((r, p2)) => if pos < p2 && p2 <= b.len() {
                match parse_records(b, p2, m - 1) {
                    Some(((bs, ans, sms), p3)) => match r {
                        RecordView::Block(n, bv) => Some(((seq![(n, bv)] + bs, ans, sms), p3)),
                        RecordView::Annotation(n, t) => Some(((bs, seq![(n, t)] + ans, sms), p3)),
                        RecordView::SourceMap(n, pv) => Some(((bs, ans, seq![(n, pv)] + sms), p3)),
                        RecordView::Skip => Some(((bs, ans, sms), p3)),
                    },
                    None => None,
                }
            } else {
                None
            },
            None => None,
        }
    }
}

/// The parse of a whole byte vector: it must be a Root document and be
/// consumed exactly.
pub open spec fn parse_document(b: Seq<u8>) -> Option<DocEntries> {
    if b.len() > 0 && b[0] == 0 {
        match parse_u64(b, 1) {
            Some((m, p1)) => match parse_records(b, p1, m as int) {
                Some((t, p2)) => if p2 == b.len() {
                    Some(t)
                } else {
                    None
                },
                None => None,
            },
            None => None,
        }
    } else {
        None
    }
}


pub proof fn lemma_parse_block_record(b: Seq<u8>, pos: int, name: Seq<char>, bv: BlockView)
    requires
        0 <= pos,
        block_entry_ok(name, bv),
        pos + ser_block_record(name, bv).len() <= b.len(),
        b.subrange(pos, pos + ser_block_record(name, bv).len()) == ser_block_record(name, bv),
    ensures
        parse_record(b, pos) == Some(
            (RecordView::Block(name, bv), pos + ser_block_record(name, bv).len()),
        ),
{
    let pay = block_payload(name, bv);
    let sv = ser_block_record(name, bv);
    let n = pay.len() as u64;
    lemma_ser_u64_len(n);
    assert(b[pos] == sv[0]);
    assert(b.subrange(pos + 1, pos + 9) =~= sv.subrange(1, 9));
    assert(sv.subrange(1, 9) =~= ser_u64(n));
    lemma_parse_u64(b, pos + 1, n);
    let p1 = pos + 9;
    let end = p1 + pay.len();
    assert(b.subrange(p1, end) =~= sv.subrange(9, sv.len() as int));
    assert(sv.subrange(9, sv.len() as int) =~= pay);
    let sn = ser_str(name);
    assert(b.subrange(p1, p1 + sn.len()) =~= pay.subrange(0, sn.len() as int));
    assert(pay.subrange(0, sn.len() as int) =~= sn);
    lemma_parse_str(b, p1, name);
    let q1 = p1 + sn.len();
    assert(b[q1] == pay[sn.len() as int]);
    assert(pay[sn.len() as int] == ser_bool(bv.global)[0]);
    assert(parse_bool(b, q1) == Some((bv.global, q1 + 1)));
    let q2 = q1 + 1;
    assert(b[q2] == pay[sn.len() as int + 1]);
    assert(pay[sn.len() as int + 1] == ser_run_type(bv.run_type)[0]);
    assert(parse_run_type(b, q2) == Some((bv.run_type, q2 + 1)));
    let q3 = q2 + 1;
    let sc = ser_codes(bv.code);
    assert(b.subrange(q3, q3 + sc.len()) =~= pay.subrange(
        sn.len() + 2 as int,
        pay.len() as int,
    ));
    assert(pay.subrange(sn.len() + 2 as int, pay.len() as int) =~= sc);
    lemma_parse_codes(b, q3, bv.code);
    assert(q3 + sc.len() == end);
    assert(BlockView { global: bv.global, run_type: bv.run_type, code: bv.code } == bv);
}

pub proof fn lemma_parse_ann_record(b: Seq<u8>, pos: int, name: Seq<char>, text: Seq<char>)
    requires
        0 <= pos,
        ann_entry_ok(name, text),
        pos + ser_ann_record(name, text).len() <= b.len(),
        b.subrange(pos, pos + ser_ann_record(name, text).len()) == ser_ann_record(name, text),
    ensures
        parse_record(b, pos) == Some(
            (RecordView::Annotation(name, text), pos + ser_ann_record(name, text).len()),
        ),
{
    let pay = ann_payload(name, text);
    let sv = ser_ann_record(name, text);
    let n = pay.len() as u64;
    lemma_ser_u64_len(n);
    assert(b[pos] == sv[0]);
    assert(b.subrange(pos + 1, pos + 9) =~= sv.subrange(1, 9));
    assert(sv.subrange(1, 9) =~= ser_u64(n));
    lemma_parse_u64(b, pos + 1, n);
    let p1 = pos + 9;
    let end = p1 + pay.len();
    assert(b.subrange(p1, end) =~= sv.subrange(9, sv.len() as int));
    assert(sv.subrange(9, sv.len() as int) =~= pay);
    let sn = ser_str(name);
    assert(b.subrange(p1, p1 + sn.len()) =~= pay.subrange(0, sn.len() as int));
    assert(pay.subrange(0, sn.len() as int) =~= sn);
    lemma_parse_str(b, p1, name);
    let q1 = p1 + sn.len();
    let st = ser_str(text);
    assert(b.subrange(q1, q1 + st.len()) =~= pay.subrange(sn.len() as int, pay.len() as int));
    assert(pay.subrange(sn.len() as int, pay.len() as int) =~= st);
    lemma_parse_str(b, q1, text);
    assert(q1 + st.len() == end);
}

pub proof fn lemma_parse_sm_record(b: Seq<u8>, pos: int, name: Seq<char>, pv: crate::ir::PositionView)
    requires
        0 <= pos,
        sm_entry_ok(name, pv),
        pos + ser_sm_record(name, pv).len() <= b.len(),
        b.subrange(pos, pos + ser_sm_record(name, pv).len()) == ser_sm_record(name, pv),
    ensures
        parse_record(b, pos) == Some(
            (RecordView::SourceMap(name, pv), pos + ser_sm_record(name, pv).len()),
        ),
{
    let pay = sm_payload(name, pv);
    let sv = ser_sm_record(name, pv);
    let n = pay.len() as u64;
    lemma_ser_u64_len(n);
    lemma_ser_u64_len(pv.line);
    lemma_ser_u64_len(pv.col);
    assert(b[pos] == sv[0]);
    assert(b.subrange(pos + 1, pos + 9) =~= sv.subrange(1, 9));
    assert(sv.subrange(1, 9) =~= ser_u64(n));
    lemma_parse_u64(b, pos + 1, n);
    let p1 = pos + 9;
    let end = p1 + pay.len();
    assert(b.subrange(p1, end) =~= sv.subrange(9, sv.len() as int));
    assert(sv.subrange(9, sv.len() as int) =~= pay);
    let sn = ser_str(name);
    assert(b.subrange(p1, p1 + sn.len()) =~= pay.subrange(0, sn.len() as int));
    assert(pay.subrange(0, sn.len() as int) =~= sn);
    lemma_parse_str(b, p1, name);
    let q1 = p1 + sn.len();
    let sf = ser_str(pv.file);
    assert(b.subrange(q1, q1 + sf.len()) =~= pay.subrange(
        sn.len() as int,
        sn.len() + sf.len() as int,
    ));
    assert(pay.subrange(sn.len() as int, sn.len() + sf.len() as int) =~= sf);
    lemma_parse_str(b, q1, pv.file);
    let q2 = q1 + sf.len();
    assert(b.subrange(q2, q2 + 8) =~= pay.subrange(
        sn.len() + sf.len() as int,
        sn.len() + sf.len() + 8 as int,
    ));
    assert(pay.subrange(sn.len() + sf.len() as int, sn.len() + sf.len() + 8 as int) =~= ser_u64(
        pv.line,
    ));
    lemma_parse_u64(b, q2, pv.line);
    let q3 = q2 + 8;
    assert(b.subrange(q3, q3 + 8) =~= pay.subrange(
        sn.len() + sf.len() + 8 as int,
        pay.len() as int,
    ));
    assert(pay.subrange(sn.len() + sf.len() + 8 as int, pay.len() as int) =~= ser_u64(pv.col));
    lemma_parse_u64(b, q3, pv.col);
    assert(q3 + 8 == end);
    assert(crate::ir::PositionView { file: pv.file, line: pv.line, col: pv.col } == pv);
}

pub proof fn lemma_ser_block_records_first(s: Seq<(Seq<char>, BlockView)>)
    requires
        s.len() > 0,
    ensures
        ser_block_records(s) == ser_block_record(s[0].0, s[0].1) + ser_block_records(
            s.drop_first(),
        ),
    decreases s.len(),
{
    if s.len() == 1 {
        assert(ser_block_records(s.drop_first()) =~= Seq::<u8>::empty());
        assert(ser_block_records(s.drop_last()) =~= Seq::<u8>::empty());
        assert(s.last() == s[0]);
        assert(ser_block_records(s) =~= ser_block_record(s[0].0, s[0].1) + ser_block_records(
            s.drop_first(),
        ));
    } else {
        lemma_ser_block_records_first(s.drop_last());
        assert(s.drop_last()[0] == s[0]);
        assert(s.drop_first().drop_last() =~= s.drop_last().drop_first());
        assert(s.drop_first().last() == s.last());
        assert(ser_block_records(s.drop_first()) == ser_block_records(s.drop_first().drop_last())
            + ser_block_record(s.drop_first().last().0, s.drop_first().last().1));
        assert(ser_block_records(s) =~= ser_block_record(s[0].0, s[0].1) + ser_block_records(
            s.drop_first(),
        ));
    }
}

pub proof fn lemma_ser_ann_records_first(s: Seq<(Seq<char>, Seq<char>)>)
    requires
        s.len() > 0,
    ensures
        ser_ann_records(s) == ser_ann_record(s[0].0, s[0].1) + ser_ann_records(s.drop_first()),
    decreases s.len(),
{
    if s.len() == 1 {
        assert(ser_ann_records(s.drop_first()) =~= Seq::<u8>::empty());
        assert(ser_ann_records(s.drop_last()) =~= Seq::<u8>::empty());
        assert(s.last() == s[0]);
        assert(ser_ann_records(s) =~= ser_ann_record(s[0].0, s[0].1) + ser_ann_records(
            s.drop_first(),
        ));
    } else {
        lemma_ser_ann_records_first(s.drop_last());
        assert(s.drop_last()[0] == s[0]);
        assert(s.drop_first().drop_last() =~= s.drop_last().drop_first());
        assert(s.drop_first().last() == s.last());
        assert(ser_ann_records(s.drop_first()) == ser_ann_records(s.drop_first().drop_last())
            + ser_ann_record(s.drop_first().last().0, s.drop_first().last().1));
        assert(ser_ann_records(s) =~= ser_ann_record(s[0].0, s[0].1) + ser_ann_records(
            s.drop_first(),
        ));
    }
}

pub proof fn lemma_ser_sm_records_first(s: Seq<(Seq<char>, crate::ir::PositionView)>)
    requires
        s.len() > 0,
    ensures
        ser_sm_records(s) == ser_sm_record(s[0].0, s[0].1) + ser_sm_records(s.drop_first()),
    decreases s.len(),
{
    if s.len() == 1 {
        assert(ser_sm_records(s.drop_first()) =~= Seq::<u8>::empty());
        assert(ser_sm_records(s.drop_last()) =~= Seq::<u8>::empty());
        assert(s.last() == s[0]);
        assert(ser_sm_records(s) =~= ser_sm_record(s[0].0, s[0].1) + ser_sm_records(
            s.drop_first(),
        ));
    } else {
        lemma_ser_sm_records_first(s.drop_last());
        assert(s.drop_last()[0] == s[0]);
        assert(s.drop_first().drop_last() =~= s.drop_last().drop_first());
        assert(s.drop_first().last() == s.last());
        assert(ser_sm_records(s.drop_first()) == ser_sm_records(s.drop_first().drop_last())
            + ser_sm_record(s.drop_first().last().0, s.drop_first().last().1));
        assert(ser_sm_records(s) =~= ser_sm_record(s[0].0, s[0].1) + ser_sm_records(
            s.drop_first(),
        ));
    }
}

#[verifier::rlimit(100)]
#[verifier::spinoff_prover]
pub proof fn lemma_parse_records_sms(b: Seq<u8>, pos: int, sms: Seq<(Seq<char>, crate::ir::PositionView)>)
    requires
        0 <= pos,
        forall|i: int| 0 <= i < sms.len() ==> sm_entry_ok((#[trigger] sms[i]).0, sms[i].1),
        pos + ser_sm_records(sms).len() <= b.len(),
        b.subrange(pos, pos + ser_sm_records(sms).len()) == ser_sm_records(sms),
    ensures
        parse_records(b, pos, sms.len() as int) == Some(
            (
                (
                    Seq::<(Seq<char>, BlockView)>::empty(),
                    Seq::<(Seq<char>, Seq<char>)>::empty(),
                    sms,
                ),
                pos + ser_sm_records(sms).len(),
            ),
        ),
    decreases sms.len(),
{
    let whole = ser_sm_records(sms);
    if sms.len() > 0 {
        lemma_ser_sm_records_first(sms);
        let r0 = ser_sm_record(sms[0].0, sms[0].1);
        lemma_ser_u64_len(sm_payload(sms[0].0, sms[0].1).len() as u64);
        assert(b.subrange(pos, pos + r0.len()) =~= whole.subrange(0, r0.len() as int));
        assert(whole.subrange(0, r0.len() as int) =~= r0);
        assert(sm_entry_ok(sms[0].0, sms[0].1));
        lemma_parse_sm_record(b, pos, sms[0].0, sms[0].1);
        let p2 = pos + r0.len();
        let rest = sms.drop_first();
        assert(forall|i: int|
            0 <= i < rest.len() ==> rest[i] == sms[i + 1] && sm_entry_ok(
                (#[trigger] sms[i + 1]).0,
                sms[i + 1].1,
            ));
        let rwhole = ser_sm_records(rest);
        assert(b.subrange(p2, p2 + rwhole.len()) =~= whole.subrange(
            r0.len() as int,
            whole.len() as int,
        ));
        assert(whole.subrange(r0.len() as int, whole.len() as int) =~= rwhole);
        lemma_parse_records_sms(b, p2, rest);
        assert((sms[0].0, sms[0].1) == sms[0]);
        assert(seq![sms[0]] + rest =~= sms);
    } else {
        assert(whole.len() == 0);
    }
}

#[verifier::rlimit(100)]
#[verifier::spinoff_prover]
pub proof fn lemma_parse_records_ans(
    b: Seq<u8>,
    pos: int,
    ans: Seq<(Seq<char>, Seq<char>)>,
    sms: Seq<(Seq<char>, crate::ir::PositionView)>,
)
    requires
        0 <= pos,
        forall|i: int| 0 <= i < ans.len() ==> ann_entry_ok((#[trigger] ans[i]).0, ans[i].1),
        forall|i: int| 0 <= i < sms.len() ==> sm_entry_ok((#[trigger] sms[i]).0, sms[i].1),
        pos + ser_ann_records(ans).len() + ser_sm_records(sms).len() <= b.len(),
        b.subrange(pos, pos + ser_ann_records(ans).len() + ser_sm_records(sms).len())
            == ser_ann_records(ans) + ser_sm_records(sms),
    ensures
        parse_records(b, pos, (ans.len() + sms.len()) as int) == Some(
            (
                (Seq::<(Seq<char>, BlockView)>::empty(), ans, sms),
                pos + ser_ann_records(ans).len() + ser_sm_records(sms).len(),
            ),
        ),
    decreases ans.len(),
{
    let whole = ser_ann_records(ans) + ser_sm_records(sms);
    if ans.len() > 0 {
        lemma_ser_ann_records_first(ans);
        let r0 = ser_ann_record(ans[0].0, ans[0].1);
        lemma_ser_u64_len(ann_payload(ans[0].0, ans[0].1).len() as u64);
        assert(b.subrange(pos, pos + r0.len()) =~= whole.subrange(0, r0.len() as int));
        assert(whole.subrange(0, r0.len() as int) =~= r0);
        assert(ann_entry_ok(ans[0].0, ans[0].1));
        lemma_parse_ann_record(b, pos, ans[0].0, ans[0].1);
        let p2 = pos + r0.len();
        let rest = ans.drop_first();
        assert(forall|i: int|
            0 <= i < rest.len() ==> rest[i] == ans[i + 1] && ann_entry_ok(
                (#[trigger] ans[i + 1]).0,
                ans[i + 1].1,
            ));
        let rwhole = ser_ann_records(rest) + ser_sm_records(sms);
        assert(b.subrange(p2, p2 + rwhole.len()) =~= whole.subrange(
            r0.len() as int,
            whole.len() as int,
        ));
        assert(whole.subrange(r0.len() as int, whole.len() as int) =~= rwhole);
        lemma_parse_records_ans(b, p2, rest, sms);
        assert((ans[0].0, ans[0].1) == ans[0]);
        assert(seq![ans[0]] + rest =~= ans);
    } else {
        assert(ser_ann_records(ans).len() == 0);
        assert(b.subrange(pos, pos + ser_sm_records(sms).len()) =~= whole);
        lemma_parse_records_sms(b, pos, sms);
    }
}

#[verifier::rlimit(100)]
#[verifier::spinoff_prover]
pub proof fn lemma_parse_records(
    b: Seq<u8>,
    pos: int,
    bs: Seq<(Seq<char>, BlockView)>,
    ans: Seq<(Seq<char>, Seq<char>)>,
    sms: Seq<(Seq<char>, crate::ir::PositionView)>,
)
    requires
        0 <= pos,
        forall|i: int| 0 <= i < bs.len() ==> block_entry_ok((#[trigger] bs[i]).0, bs[i].1),
        forall|i: int| 0 <= i < ans.len() ==> ann_entry_ok((#[trigger] ans[i]).0, ans[i].1),
        forall|i: int| 0 <= i < sms.len() ==> sm_entry_ok((#[trigger] sms[i]).0, sms[i].1),
        pos + ser_block_records(bs).len() + ser_ann_records(ans).len() + ser_sm_records(
            sms,
        ).len() <= b.len(),
        b.subrange(
            pos,
            pos + ser_block_records(bs).len() + ser_ann_records(ans).len() + ser_sm_records(
                sms,
            ).len(),
        ) == ser_block_records(bs) + ser_ann_records(ans) + ser_sm_records(sms),
    ensures
        parse_records(b, pos, (bs.len() + ans.len() + sms.len()) as int) == Some(
            (
                (bs, ans, sms),
                pos + ser_block_records(bs).len() + ser_ann_records(ans).len()
                    + ser_sm_records(sms).len(),
            ),
        ),
    decreases bs.len(),
{
    let whole = ser_block_records(bs) + ser_ann_records(ans) + ser_sm_records(sms);
    if bs.len() > 0 {
        lemma_ser_block_records_first(bs);
        let r0 = ser_block_record(bs[0].0, bs[0].1);
        lemma_ser_u64_len(block_payload(bs[0].0, bs[0].1).len() as u64);
        assert(b.subrange(pos, pos + r0.len()) =~= whole.subrange(0, r0.len() as int));
        assert(whole.subrange(0, r0.len() as int) =~= r0);
        assert(block_entry_ok(bs[0].0, bs[0].1));
        lemma_parse_block_record(b, pos, bs[0].0, bs[0].1);
        let p2 = pos + r0.len();
        let rest = bs.drop_first();
        assert(forall|i: int|
            0 <= i < rest.len() ==> rest[i] == bs[i + 1] && block_entry_ok(
                (#[trigger] bs[i + 1]).0,
                bs[i + 1].1,
            ));
        let rwhole = ser_block_records(rest) + ser_ann_records(ans) + ser_sm_records(sms);
        assert(b.subrange(p2, p2 + rwhole.len()) =~= whole.subrange(
            r0.len() as int,
            whole.len() as int,
        ));
        assert(whole.subrange(r0.len() as int, whole.len() as int) =~= rwhole);
        lemma_parse_records(b, p2, rest, ans, sms);
        assert((bs[0].0, bs[0].1) == bs[0]);
        assert(seq![bs[0]] + rest =~= bs);
    } else {
        assert(ser_block_records(bs).len() == 0);
        assert(b.subrange(pos, pos + ser_ann_records(ans).len() + ser_sm_records(sms).len())
            =~= whole);
        lemma_parse_records_ans(b, pos, ans, sms);
    }
}

/// Law: reading back a written document yields the same entries, in the
/// same order, whatever follows nothing.
pub proof fn lemma_serialize_round_trip(
    bs: Seq<(Seq<char>, BlockView)>,
    ans: Seq<(Seq<char>, Seq<char>)>,
    sms: Seq<(Seq<char>, crate::ir::PositionView)>,
)
    requires
        doc_ok(bs, ans, sms),
    ensures
        parse_document(ser_document(bs, ans, sms)) == Some((bs, ans, sms)),
{
    let b = ser_document(bs, ans, sms);
    let count = (bs.len() + ans.len() + sms.len()) as u64;
    lemma_ser_u64_len(count);
    assert(b[0] == 0);
    assert(b.subrange(1, 9) =~= ser_u64(count));
    lemma_parse_u64(b, 1, count);
    let whole = ser_block_records(bs) + ser_ann_records(ans) + ser_sm_records(sms);
    assert(b.subrange(9, 9 + whole.len() as int) =~= whole);
    lemma_parse_records(b, 9, bs, ans, sms);
    assert(count as int == bs.len() + ans.len() + sms.len());
    assert(9 + whole.len() == b.len());
}


// ---------------------------------------------------------------------
// Writing and reading whole programs.
// ---------------------------------------------------------------------
pub fn write_block_record(out: &mut Vec<u8>, name: &String, blk: &Block)
    ensures
        final(out)@ == old(out)@ + ser_block_record(name@, blk@),
        block_entry_ok(name@, blk@),
{
    let mut p: Vec<u8> = Vec::new();
    write_str(&mut p, name);
    write_bool(&mut p, blk.global);
    write_run_type(&mut p, &blk.run_type);
    write_codes(&mut p, &blk.code);
    proof {
        assert(p@ =~= block_payload(name@, blk@));
    }
    let n = p.len();
    out.push(1u8);
    write_u64(out, n as u64);
    out.append(&mut p);
    proof {
        assert(out@ =~= old(out)@ + ser_block_record(name@, blk@));
    }
}

pub fn write_ann_record(out: &mut Vec<u8>, name: &String, text: &String)
    ensures
        final(out)@ == old(out)@ + ser_ann_record(name@, text@),
        ann_entry_ok(name@, text@),
{
    let mut p: Vec<u8> = Vec::new();
    write_str(&mut p, name);
    write_str(&mut p, text);
    proof {
        assert(p@ =~= ann_payload(name@, text@));
    }
    let n = p.len();
    out.push(2u8);
    write_u64(out, n as u64);
    out.append(&mut p);
    proof {
        assert(out@ =~= old(out)@ + ser_ann_record(name@, text@));
    }
}

pub fn write_sm_record(out: &mut Vec<u8>, name: &String, pos: &Position)
    ensures
        final(out)@ == old(out)@ + ser_sm_record(name@, pos@),
        sm_entry_ok(name@, pos@),
{
    let mut p: Vec<u8> = Vec::new();
    write_str(&mut p, name);
    write_str(&mut p, &pos.file);
    write_u64(&mut p, pos.line);
    write_u64(&mut p, pos.col);
    proof {
        assert(p@ =~= sm_payload(name@, pos@));
    }
    let n = p.len();
    out.push(3u8);
    write_u64(out, n as u64);
    out.append(&mut p);
    proof {
        assert(out@ =~= old(out)@ + ser_sm_record(name@, pos@));
    }
}

impl IR {
    /// The program written as bytes.
    pub fn into_vec(&self) -> (r: Vec<u8>)
        requires
            self.blocks@.len() + self.annotations@.len() + self.source_map@.len() < len_cap(),
        ensures
            r@ == ser_document(self.blocks@, self.annotations@, self.source_map@),
            doc_ok(self.blocks@, self.annotations@, self.source_map@),
    {
        let nb = self.blocks.len();
        let na = self.annotations.len();
        let ns = self.source_map.len();
        let count: u64 = nb as u64 + na as u64 + ns as u64;
        let mut out: Vec<u8> = Vec::new();
        out.push(0u8);
        write_u64(&mut out, count);
        let ghost header = seq![0u8] + ser_u64(count);
        proof {
            assert(out@ =~= header);
        }
        let mut i: usize = 0;
        while i < nb
            invariant
                nb == self.blocks@.len(),
                i <= nb,
                header == seq![0u8] + ser_u64(count),
                out@ =~= header + ser_block_records(self.blocks@.take(i as int)),
                forall|j: int|
                    0 <= j < i ==> block_entry_ok(
                        (#[trigger] self.blocks@[j]).0,
                        self.blocks@[j].1,
                    ),
            decreases nb - i,
        {
            write_block_record(&mut out, self.blocks.key_at(i), self.blocks.val_at(i));
            proof {
                let t1 = self.blocks@.take(i as int + 1);
                assert(t1.drop_last() =~= self.blocks@.take(i as int));
                assert(t1.last() == self.blocks@[i as int]);
                assert((self.blocks@[i as int].0, self.blocks@[i as int].1)
                    == self.blocks@[i as int]);
                assert(out@ =~= header + ser_block_records(t1));
            }
            i = i + 1;
        }
        proof {
            assert(self.blocks@.take(nb as int) =~= self.blocks@);
        }
        let ghost done_b = header + ser_block_records(self.blocks@);
        let mut i: usize = 0;
        while i < na
            invariant
                na == self.annotations@.len(),
                i <= na,
                done_b == header + ser_block_records(self.blocks@),
                out@ =~= done_b + ser_ann_records(self.annotations@.take(i as int)),
                forall|j: int|
                    0 <= j < i ==> ann_entry_ok(
                        (#[trigger] self.annotations@[j]).0,
                        self.annotations@[j].1,
                    ),
            decreases na - i,
        {
            write_ann_record(&mut out, self.annotations.key_at(i), self.annotations.val_at(i));
            proof {
                let t1 = self.annotations@.take(i as int + 1);
                assert(t1.drop_last() =~= self.annotations@.take(i as int));
                assert(t1.last() == self.annotations@[i as int]);
                assert((self.annotations@[i as int].0, self.annotations@[i as int].1)
                    == self.annotations@[i as int]);
                assert(out@ =~= done_b + ser_ann_records(t1));
            }
            i = i + 1;
        }
        proof {
            assert(self.annotations@.take(na as int) =~= self.annotations@);
        }
        let ghost done_a = done_b + ser_ann_records(self.annotations@);
        let mut i: usize = 0;
        while i < ns
            invariant
                ns == self.source_map@.len(),
                i <= ns,
                done_a == header + ser_block_records(self.blocks@) + ser_ann_records(
                    self.annotations@,
                ),
                out@ =~= done_a + ser_sm_records(self.source_map@.take(i as int)),
                forall|j: int|
                    0 <= j < i ==> sm_entry_ok(
                        (#[trigger] self.source_map@[j]).0,
                        self.source_map@[j].1,
                    ),
            decreases ns - i,
        {
            write_sm_record(&mut out, self.source_map.key_at(i), self.source_map.val_at(i));
            proof {
                let t1 = self.source_map@.take(i as int + 1);
                assert(t1.drop_last() =~= self.source_map@.take(i as int));
                assert(t1.last() == self.source_map@[i as int]);
                assert((self.source_map@[i as int].0, self.source_map@[i as int].1)
                    == self.source_map@[i as int]);
                assert(out@ =~= done_a + ser_sm_records(t1));
            }
            i = i + 1;
        }
        proof {
            assert(self.source_map@.take(ns as int) =~= self.source_map@);
            assert(out@ =~= ser_document(self.blocks@, self.annotations@, self.source_map@));
        }
        out
    }
}

/// One record as read, carrying owned values.
pub enum OwnedRecord {
    Block(String, Block),
    Annotation(String, String),
    SourceMap(String, Position),
    Skip,
}

pub open spec fn owned_record_view(r: OwnedRecord) -> RecordView {
    match r {
        OwnedRecord::Block(n, b) => RecordView::Block(n@, b@),
        OwnedRecord::Annotation(n, t) => RecordView::Annotation(n@, t@),
        OwnedRecord::SourceMap(n, p) => RecordView::SourceMap(n@, p@),
        OwnedRecord::Skip => RecordView::Skip,
    }
}

pub fn read_record(b: &Vec<u8>, pos: usize) -> (r: Result<
    (OwnedRecord, usize),
    SerializationError,
>)
    ensures
        match r {
            Ok((rec, p)) => parse_record(b@, pos as int) == Some(
                (owned_record_view(rec), p as int),
            ),
            Err(_) => parse_record(b@, pos as int) is None,
        },
{
    if pos >= b.len() {
        return Err(SerializationError::UnexpectedEnd);
    }
    let tag = b[pos];
    let (len, p1) = match read_u64(b, pos + 1) {
        Ok(v) => v,
        Err(e) => {
            return Err(e);
        },
    };
    let rem: u64 = (b.len() - p1) as u64;
    if len > rem {
        return Err(SerializationError::UnexpectedEnd);
    }
    let end = p1 + len as usize;
    if tag == 1 {
        let (name, q1) = match read_str(b, p1) {
            Ok(v) => v,
            Err(e) => {
                return Err(e);
            },
        };
        let (g, q2) = match read_bool(b, q1) {
            Ok(v) => v,
            Err(e) => {
                return Err(e);
            },
        };
        let (t, q3) = match read_run_type(b, q2) {
            Ok(v) => v,
            Err(e) => {
                return Err(e);
            },
        };
        let (code, q4) = match read_codes(b, q3) {
            Ok(v) => v,
            Err(e) => {
                return Err(e);
            },
        };
        if q4 == end {
            Ok((OwnedRecord::Block(name, Block { global: g, run_type: t, code }), end))
        } else {
            Err(SerializationError::InvalidEncoding)
        }
    } else if tag == 2 {
        let (name, q1) = match read_str(b, p1) {
            Ok(v) => v,
            Err(e) => {
                return Err(e);
            },
        };
        let (text, q2) = match read_str(b, q1) {
            Ok(v) => v,
            Err(e) => {
                return Err(e);
            },
        };
        if q2 == end {
            Ok((OwnedRecord::Annotation(name, text), end))
        } else {
            Err(SerializationError::InvalidEncoding)
        }
    } else if tag == 3 {
        let (name, q1) = match read_str(b, p1) {
            Ok(v) => v,
            Err(e) => {
                return Err(e);
            },
        };
        let (file, q2) = match read_str(b, q1) {
            Ok(v) => v,
            Err(e) => {
                return Err(e);
            },
        };
        let (line, q3) = match read_u64(b, q2) {
            Ok(v) => v,
            Err(e) => {
                return Err(e);
            },
        };
        let (col, q4) = match read_u64(b, q3) {
            Ok(v) => v,
            Err(e) => {
                return Err(e);
            },
        };
        if q4 == end {
            Ok((OwnedRecord::SourceMap(name, Position { file, line, col }), end))
        } else {
            Err(SerializationError::InvalidEncoding)
        }
    } else {
        Ok((OwnedRecord::Skip, end))
    }
}

/// Reads a whole program back from bytes. Succeeds exactly on a Root
/// document whose block names are pairwise distinct; annotations and
/// source positions keep the last entry of a repeated name.
#[verifier::rlimit(100)]
#[verifier::spinoff_prover]
pub fn from_vec(data: &Vec<u8>) -> (r: Result<IR, SerializationError>)
    ensures
        match r {
            Ok(ir) => match parse_document(data@) {
                Some(t) => ir.wf() && crate::names::distinct_keys(t.0) && ir.blocks@ == t.0
                    && ir.annotations.as_map() == assoc_map(t.1) && ir.source_map.as_map()
                    == assoc_map(t.2),
                None => false,
            },
            Err(_) => match parse_document(data@) {
                Some(t) => !crate::names::distinct_keys(t.0),
                None => true,
            },
        },
        data@.len() == 0 || data@[0] != 0 ==> r == Result::<IR, SerializationError>::Err(
            SerializationError::ExpectedRoot,
        ),
        (match parse_document(data@) {
            Some(t) => !crate::names::distinct_keys(t.0),
            None => false,
        }) ==> r == Result::<IR, SerializationError>::Err(
            SerializationError::IRError(IRError::BlockAlreadyExists),
        ),
{
    if data.len() == 0 {
        return Err(SerializationError::ExpectedRoot);
    }
    if data[0] != 0 {
        return Err(SerializationError::ExpectedRoot);
    }
    let (m, p1) = match read_u64(data, 1) {
        Ok(v) => v,
        Err(e) => {
            return Err(e);
        },
    };
    let mut ir = IR::new();
    let mut cur: usize = p1;
    let mut j: u64 = 0;
    let ghost mut acc_bs: Seq<(Seq<char>, BlockView)> = Seq::empty();
    let ghost mut acc_ans: Seq<(Seq<char>, Seq<char>)> = Seq::empty();
    let ghost mut acc_sms: Seq<(Seq<char>, crate::ir::PositionView)> = Seq::empty();
    while j < m
        invariant
            0 < p1 <= cur <= data@.len(),
            j <= m,
            parse_u64(data@, 1) == Some((m, p1 as int)),
            data@.len() > 0 && data@[0] == 0,
            ir.wf(),
            crate::names::distinct_keys(acc_bs),
            ir.blocks@ == acc_bs,
            ir.annotations.as_map() == assoc_map(acc_ans),
            ir.source_map.as_map() == assoc_map(acc_sms),
            match parse_records(data@, cur as int, (m - j) as int) {
                Some((t, p)) => parse_records(data@, p1 as int, m as int) == Some(
                    ((acc_bs + t.0, acc_ans + t.1, acc_sms + t.2), p),
                ),
                None => parse_records(data@, p1 as int, m as int) is None,
            },
        decreases m - j,
    {
        let (rec, p2) = match read_record(data, cur) {
            Ok(v) => v,
            Err(e) => {
                proof {
                    assert(parse_records(data@, cur as int, (m - j) as int) is None);
                }
                return Err(e);
            },
        };
        if !(cur < p2 && p2 <= data.len()) {
            proof {
                assert(parse_records(data@, cur as int, (m - j) as int) is None);
            }
            return Err(SerializationError::InvalidEncoding);
        }
        proof {
            match parse_records(data@, p2 as int, (m - j - 1) as int) {
                Some((t, p)) => {},
                None => {
                    assert(parse_records(data@, cur as int, (m - j) as int) is None);
                },
            }
        }
        match rec {
            OwnedRecord::Block(name, blk) => {
                if ir.blocks.contains_key(&name) {
                    proof {
                        crate::names::lemma_assoc_map_contains(acc_bs, name@);
                        let i0 = choose|i0: int|
                            0 <= i0 < acc_bs.len() && acc_bs[i0].0 == name@;
                        match parse_records(data@, p2 as int, (m - j - 1) as int) {
                            Some((t, p)) => {
                                let full = acc_bs + (seq![(name@, blk@)] + t.0);
                                assert(full[i0].0 == name@);
                                assert(full[acc_bs.len() as int].0 == name@);
                                assert(!crate::names::distinct_keys(full));
                            },
                            None => {},
                        }
                    }
                    return Err(SerializationError::IRError(IRError::BlockAlreadyExists));
                }
                proof {
                    crate::names::lemma_assoc_map_contains(acc_bs, name@);
                }
                let ghost nv = name@;
                let ghost bv = blk@;
                let ghost old_bs = acc_bs;
                ir.blocks.insert(name, blk);
                proof {
                    acc_bs = old_bs.push((nv, bv));
                    match parse_records(data@, p2 as int, (m - j - 1) as int) {
                        Some((t, p)) => {
                            assert((old_bs + (seq![(nv, bv)] + t.0)) =~= (acc_bs + t.0));
                        },
                        None => {},
                    }
                }
            },
            OwnedRecord::Annotation(name, text) => {
                let ghost nv = name@;
                let ghost tv = text@;
                let ghost old_ans = acc_ans;
                ir.annotations.insert(name, text);
                proof {
                    crate::names::lemma_assoc_map_push(old_ans, nv, tv);
                    acc_ans = old_ans.push((nv, tv));
                    match parse_records(data@, p2 as int, (m - j - 1) as int) {
                        Some((t, p)) => {
                            assert((old_ans + (seq![(nv, tv)] + t.1)) =~= (acc_ans + t.1));
                        },
                        None => {},
                    }
                }
            },
            OwnedRecord::SourceMap(name, position) => {
                let ghost nv = name@;
                let ghost pv = position@;
                let ghost old_sms = acc_sms;
                ir.source_map.insert(name, position);
                proof {
                    crate::names::lemma_assoc_map_push(old_sms, nv, pv);
                    acc_sms = old_sms.push((nv, pv));
                    match parse_records(data@, p2 as int, (m - j - 1) as int) {
                        Some((t, p)) => {
                            assert((old_sms + (seq![(nv, pv)] + t.2)) =~= (acc_sms + t.2));
                        },
                        None => {},
                    }
                }
            },
            OwnedRecord::Skip => {
            },
        }
        cur = p2;
        j = j + 1;
    }
    proof {
        assert(parse_records(data@, cur as int, 0int) == Some(
            (
                (
                    Seq::<(Seq<char>, BlockView)>::empty(),
                    Seq::<(Seq<char>, Seq<char>)>::empty(),
                    Seq::<(Seq<char>, crate::ir::PositionView)>::empty(),
                ),
                cur as int,
            ),
        ));
        assert(acc_bs + Seq::<(Seq<char>, BlockView)>::empty() =~= acc_bs);
        assert(acc_ans + Seq::<(Seq<char>, Seq<char>)>::empty() =~= acc_ans);
        assert(acc_sms + Seq::<(Seq<char>, crate::ir::PositionView)>::empty() =~= acc_sms);
    }
    if cur != data.len() {
        return Err(SerializationError::InvalidEncoding);
    }
    Ok(ir)
}

} // verus!
