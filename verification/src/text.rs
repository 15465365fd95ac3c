//! Line-oriented directive matching over the bytes of annotation text.
use vstd::prelude::*;
use vstd::utf8::encode_utf8;

verus! {

/// Position `i` begins a line: the very start, or just after a newline.
pub open spec fn line_start(b: Seq<u8>, i: int) -> bool {
    0 <= i <= b.len() && (i == 0 || b[i - 1] == 10)
}

/// The directive's bytes occur at position `i`.
pub open spec fn starts_at(b: Seq<u8>, d: Seq<u8>, i: int) -> bool {
    0 <= i && i + d.len() <= b.len() && b.subrange(i, i + d.len()) == d
}

/// Some line of the text begins with the directive.
pub open spec fn has_directive_spec(b: Seq<u8>, d: Seq<u8>) -> bool {
    exists|i: int| line_start(b, i) && starts_at(b, d, i)
}

/// Whether the directive's bytes stand at position `i` of the text.
fn match_at(b: &[u8], d: &[u8], i: usize) -> (r: bool)
    requires
        i <= b@.len(),
    ensures
        r == starts_at(b@, d@, i as int),
{
    let n = b.len();
    let m = d.len();
    if n - i < m {
        proof {
            assert(!starts_at(b@, d@, i as int));
        }
        return false;
    }
    let mut j: usize = 0;
    while j < m
        invariant
            i + m <= n,
            n == b@.len(),
            m == d@.len(),
            j <= m,
            forall|k: int| 0 <= k < j ==> b@[i + k] == d@[k],
        decreases m - j,
    {
        if *vstd::slice::slice_index_get(b, i + j) != *vstd::slice::slice_index_get(d, j) {
            proof {
                assert(b@.subrange(i as int, i + m as int)[j as int] == b@[i + j as int]);
                assert(!starts_at(b@, d@, i as int));
            }
            return false;
        }
        j = j + 1;
    }
    proof {
        assert(b@.subrange(i as int, i + m as int) =~= d@);
    }
    true
}

/// Whether some line of the text begins with the directive, byte for
/// byte in the UTF-8 form of both.
pub fn text_has_directive(text: &String, directive: &String) -> (r: bool)
    ensures
        r == has_directive_spec(encode_utf8(text@), encode_utf8(directive@)),
{
    let b = text.as_str().as_bytes();
    let d = directive.as_str().as_bytes();
    let n = b.len();
    let mut i: usize = 0;
    loop
        invariant
            i <= n,
            n == b@.len(),
            b@ == encode_utf8(text@),
            d@ == encode_utf8(directive@),
            forall|p: int| 0 <= p < i ==> !(line_start(b@, p) && starts_at(b@, d@, p)),
        decreases n - i,
    {
        let is_start = i == 0 || *vstd::slice::slice_index_get(b, i - 1) == 10;
        if is_start {
            if match_at(b, d, i) {
                proof {
                    assert(line_start(b@, i as int) && starts_at(b@, d@, i as int));
                }
                return true;
            }
        }
        if i == n {
            proof {
                assert forall|p: int|
                    line_start(b@, p) implies !starts_at(b@, d@, p) by {
                    if 0 <= p <= n {
                        if p < i {
                        } else {
                            assert(p == n);
                        }
                    }
                }
            }
            return false;
        }
        i = i + 1;
    }
}

} // verus!
