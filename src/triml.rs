//! `clojure.string/triml`: removes white space from the start of a string.

use vstd::prelude::*;
use vstd::string::StrSliceExecFns;
use vstd::string::StringExecFns;

verus! {

/// Whether Unicode counts `c` as white space (its `White_Space` property):
/// U+0009 to U+000D, U+0020, U+0085, U+00A0, U+1680, U+2000 to U+200A,
/// U+2028, U+2029, U+202F, U+205F and U+3000.
pub open spec fn is_white_space(c: char) -> bool {
    let u = c as u32;
    (0x9 <= u <= 0xd) || u == 0x20 || u == 0x85 || u == 0xa0 || u == 0x1680 || (0x2000 <= u
        <= 0x200a) || u == 0x2028 || u == 0x2029 || u == 0x202f || u == 0x205f || u == 0x3000
}

/// Whether `c` is white space (see `is_white_space`).
pub fn white_space(c: char) -> (r: bool)
    ensures
        r == is_white_space(c),
{
    let u = c as u32;
    (0x9 <= u && u <= 0xd) || u == 0x20 || u == 0x85 || u == 0xa0 || u == 0x1680 || (0x2000 <= u
        && u <= 0x200a) || u == 0x2028 || u == 0x2029 || u == 0x202f || u == 0x205f || u == 0x3000
}

/// `n` is the number of white-space characters that `s` starts with.
pub open spec fn leading_white_space(s: Seq<char>, n: int) -> bool {
    &&& 0 <= n <= s.len()
    &&& forall|i: int| 0 <= i < n ==> is_white_space(#[trigger] s[i])
    &&& (n < s.len() ==> !is_white_space(s[n]))
}

/// `s` without its leading white space.
pub open spec fn trim_start(s: Seq<char>) -> Seq<char> {
    s.skip(choose|n: int| leading_white_space(s, n))
}

/// Why a call of a function value was refused.
#[derive(Debug, Clone, Copy, PartialEq, Eq)]
pub enum ArgError {
    /// The function takes `expected` arguments and was given `got`.
    WrongArgCount { expected: usize, got: usize },
}

/// The function value `clojure.string/triml`.
#[derive(Debug, Clone, Copy, PartialEq, Eq)]
pub struct TrimLFn {}

impl TrimLFn {
    /// Trims the leading white space of the one string argument.
    pub fn invoke(&self, args: &Vec<String>) -> (r: Result<String, ArgError>)
        ensures
            args@.len() != 1 ==> r == Err::<String, ArgError>(
                ArgError::WrongArgCount { expected: 1, got: args@.len() as usize },
            ),
            args@.len() == 1 ==> (r matches Ok(t) && t@ == trim_start(args@[0]@)),
    {
        if args.len() != 1 {
            return Err(ArgError::WrongArgCount { expected: 1, got: args.len() });
        }
        Ok(triml(args[0].as_str()))
    }
}

/// `s` without its leading white space.
pub fn triml(s: &str) -> (r: String)
    ensures
        r@ == trim_start(s@),
{
    let len = s.unicode_len();
    let mut n: usize = 0;
    while n < len && white_space(s.get_char(n))
        invariant
            len == s@.len(),
            0 <= n <= len,
            forall|i: int| 0 <= i < n ==> is_white_space(#[trigger] s@[i]),
        decreases len - n,
    {
        n += 1;
    }
    proof {
        assert(leading_white_space(s@, n as int));
        lemma_leading_unique(s@, n as int, choose|m: int| leading_white_space(s@, m));
    }
    String::from_str(s.substring_char(n, len))
}

proof fn lemma_leading_unique(s: Seq<char>, n: int, m: int)
    requires
        leading_white_space(s, n),
        leading_white_space(s, m),
    ensures
        n == m,
{
    if n < m {
        assert(is_white_space(s[n]));
    } else if m < n {
        assert(is_white_space(s[m]));
    }
}

} // verus!
