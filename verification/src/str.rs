use vstd::prelude::*;

use vstd::wrapping::u32_specs;

verus! {

/// The code point a character contributes to the hash: lower-case ASCII
/// letters count as their upper-case form, everything else as themselves.
pub open spec fn spec_upper_code(c: char) -> u32 {
    let v = c as u32;
    if 97 <= v && v <= 122 {
        (v - 32) as u32
    } else {
        v
    }
}

/// ASCII upper-casing of one character.
pub open spec fn spec_ascii_upper(c: char) -> char {
    let v = c as u32;
    if 97 <= v && v <= 122 {
        ((v - 32) as u32) as char
    } else {
        c
    }
}

/// The 32-bit accumulator of the name hash: starting from zero, each
/// character folds in as `h * 61 + code - 32` with wrap-around.
pub open spec fn spec_name_hash_acc(s: Seq<char>) -> u32
    decreases s.len(),
{
    if s.len() == 0 {
        0u32
    } else {
        u32_specs::wrapping_sub(
            u32_specs::wrapping_add(
                u32_specs::wrapping_mul(spec_name_hash_acc(s.drop_last()), 61),
                spec_upper_code(s.last()),
            ),
            32,
        )
    }
}

/// The case-insensitive 32-bit signed hash keying archive entries by name.
pub open spec fn spec_name_hash(s: Seq<char>) -> i32 {
    as_signed_32_hash(spec_name_hash_acc(s))
}

/// Reinterprets the unsigned accumulator as a two's-complement signed value.
pub open spec fn as_signed_32_hash(v: u32) -> i32 {
    if v >= 0x8000_0000 {
        (v - 0x1_0000_0000) as i32
    } else {
        v as i32
    }
}

/// Extension trait hanging the name hash off string slices.
pub trait StrExt: View<V = Seq<char>> {
    /// The case-insensitive 32-bit hash of this name.
    fn name_hash(&self) -> (r: i32)
        ensures
            r == spec_name_hash(self@),
    ;
}

impl StrExt for str {
    fn name_hash(&self) -> (r: i32) {
        name_hash(self)
    }
}

/// Computes the case-insensitive 32-bit signed name hash of `s`.
pub fn name_hash(s: &str) -> (r: i32)
    ensures
        r == spec_name_hash(s@),
{
    let mut h: u32 = 0;
    for c in it: s.chars()
        invariant
            it.seq() == s@,
            h == spec_name_hash_acc(it.seq().take(it.index() as int)),
    {
        let v: u32 = c as u32;
        let code: u32 = if 97 <= v && v <= 122 {
            v - 32
        } else {
            v
        };
        proof {
            let prefix = it.seq().take(it.index() as int + 1);
            assert(prefix.drop_last() =~= it.seq().take(it.index() as int));
            assert(prefix.last() == c);
            assert(code == spec_upper_code(c));
        }
        h = h.wrapping_mul(61).wrapping_add(code).wrapping_sub(32);
    }
    assert(s@.take(s@.len() as int) =~= s@);
    if h >= 0x8000_0000u32 {
        let flipped: u32 = 0xffff_ffffu32 - h;
        -(flipped as i32) - 1
    } else {
        h as i32
    }
}

/// Law: the name hash is case-insensitive.  Upper-casing the input character
/// by character leaves the hash unchanged (and the hash is a function of the
/// characters alone).
pub proof fn lemma_name_hash_case_insensitive(s: Seq<char>)
    ensures
        spec_name_hash(s.map_values(|c: char| spec_ascii_upper(c))) == spec_name_hash(s),
    decreases s.len(),
{
    let upper = s.map_values(|c: char| spec_ascii_upper(c));
    if s.len() == 0 {
        assert(upper =~= Seq::<char>::empty());
    } else {
        lemma_name_hash_case_insensitive(s.drop_last());
        assert(upper.drop_last() =~= s.drop_last().map_values(|c: char| spec_ascii_upper(c)));
        assert(upper.last() == spec_ascii_upper(s.last()));
        assert(spec_upper_code(spec_ascii_upper(s.last())) == spec_upper_code(s.last()));
    }
}

} // verus!
