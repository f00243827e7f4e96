//! Short symbolic names that key component, resource and event types,
//! held as the host's small-symbol value word.
use vstd::prelude::*;

verus! {

/// Whether `c` may appear in a short symbol: `a-z`, `A-Z`, `0-9` or `_`.
pub open spec fn is_symbol_char(c: char) -> bool {
    c == '_' || ('0' <= c && c <= '9') || ('A' <= c && c <= 'Z') || ('a' <= c && c <= 'z')
}

/// The six-bit code of a symbol character.
pub open spec fn symbol_char_code(c: char) -> int {
    if c == '_' {
        1
    } else if '0' <= c && c <= '9' {
        2 + (c as int - '0' as int)
    } else if 'A' <= c && c <= 'Z' {
        12 + (c as int - 'A' as int)
    } else {
        38 + (c as int - 'a' as int)
    }
}

/// A name that fits in a small symbol: at most nine symbol characters.
pub open spec fn is_short_symbol_name(s: Seq<char>) -> bool {
    s.len() <= 9 && forall|i: int| 0 <= i < s.len() ==> is_symbol_char(#[trigger] s[i])
}

/// Whether every character of `s` is a symbol character, checked from the
/// front.
pub open spec fn symbol_chars_ok(s: Seq<char>) -> bool
    decreases s.len(),
{
    if s.len() == 0 {
        true
    } else {
        is_symbol_char(s[0]) && symbol_chars_ok(s.drop_first())
    }
}

/// A name of at most nine characters that pass the check from the front
/// is a short symbol name.
pub proof fn lemma_short_name(s: Seq<char>)
    requires
        s.len() <= 9,
        symbol_chars_ok(s),
    ensures
        is_short_symbol_name(s),
{
    lemma_symbol_chars_ok(s);
}

proof fn lemma_symbol_chars_ok(s: Seq<char>)
    requires
        symbol_chars_ok(s),
    ensures
        forall|i: int| 0 <= i < s.len() ==> is_symbol_char(#[trigger] s[i]),
    decreases s.len(),
{
    if s.len() > 0 {
        lemma_symbol_chars_ok(s.drop_first());
        assert forall|i: int| 0 <= i < s.len() implies is_symbol_char(#[trigger] s[i]) by {
            if i > 0 {
                assert(s[i] == s.drop_first()[i - 1]);
            }
        }
    }
}

/// The characters' codes packed six bits each, first character highest.
pub open spec fn symbol_body(s: Seq<char>) -> int
    decreases s.len(),
{
    if s.len() == 0 {
        0
    } else {
        symbol_body(s.drop_last()) * 64 + symbol_char_code(s.last())
    }
}

/// The tag byte that marks a value word as a small symbol.
pub const SMALL_SYMBOL_TAG: u64 = 14;

/// The value word of a small symbol: its body above an eight-bit tag.
pub open spec fn short_symbol_bits(s: Seq<char>) -> int {
    symbol_body(s) * 256 + SMALL_SYMBOL_TAG as int
}

/// The symbol named by the short name `s`.
pub open spec fn spec_short(s: Seq<char>) -> Symbol {
    Symbol::spec_from_bits(short_symbol_bits(s) as u64)
}

/// Whether `bits` is the value word of some small symbol: the tag byte is
/// the small-symbol tag and the body uses at most fifty-four bits.
pub open spec fn is_small_symbol_bits(bits: u64) -> bool {
    bits % 256 == SMALL_SYMBOL_TAG && bits < 0x4000_0000_0000_0000
}

/// Relies on `soroban_sdk::Symbol::short` (the function behind the
/// `symbol_short!` macro) and `Val::get_payload`: a name of at most nine
/// characters from `a-zA-Z0-9_` becomes the small symbol whose value word
/// packs each character's code six bits at a time, first character
/// highest, above the small-symbol tag byte. Any other name makes
/// `Symbol::short` panic, hence the precondition.
#[verifier::external_body]
fn small_symbol_bits(s: &str) -> (r: u64)
    requires
        is_short_symbol_name(s@),
    ensures
        r as int == short_symbol_bits(s@),
{
    #[allow(deprecated)]
    soroban_sdk::Symbol::short(s).to_val().get_payload()
}

proof fn lemma_symbol_body_bound(s: Seq<char>)
    requires
        forall|i: int| 0 <= i < s.len() ==> is_symbol_char(#[trigger] s[i]),
    ensures
        0 <= symbol_body(s) < pow64(s.len()),
    decreases s.len(),
{
    if s.len() > 0 {
        let t = s.drop_last();
        assert forall|i: int| 0 <= i < t.len() implies is_symbol_char(#[trigger] t[i]) by {
            assert(t[i] == s[i]);
        }
        lemma_symbol_body_bound(t);
        assert(is_symbol_char(s[s.len() - 1]));
        let c = s.last();
        assert(1 <= symbol_char_code(c) < 64);
        let b = symbol_body(t);
        let p = pow64(t.len());
        assert(b * 64 + symbol_char_code(c) < p * 64) by (nonlinear_arith)
            requires 0 <= b < p, 1 <= symbol_char_code(c) < 64;
    }
}

/// Sixty-four to the `n`.
pub open spec fn pow64(n: nat) -> int
    decreases n,
{
    if n == 0 {
        1
    } else {
        64 * pow64((n - 1) as nat)
    }
}

/// A short symbolic name used as the key of component, resource and event
/// types, held as its small-symbol value word. Two symbols are the same
/// exactly when their words are.
#[derive(Clone, Copy, Debug, PartialEq, Eq, Structural, Hash)]
pub struct Symbol {
    bits: u64,
}

impl Symbol {
    /// The value word.
    pub closed spec fn spec_bits(self) -> u64 {
        self.bits
    }

    /// The symbol whose value word is `bits`.
    pub closed spec fn spec_from_bits(bits: u64) -> Symbol {
        Symbol { bits }
    }

    /// Every symbol holds the value word of a small symbol.
    pub open spec fn wf(self) -> bool {
        is_small_symbol_bits(self.spec_bits())
    }

    /// The symbol named `s`, which must be a short symbol name.
    pub fn short(s: &str) -> (r: Symbol)
        requires
            is_short_symbol_name(s@),
        ensures
            r.spec_bits() as int == short_symbol_bits(s@),
            r == spec_short(s@),
            r.wf(),
    {
        let bits = small_symbol_bits(s);
        proof {
            lemma_symbol_body_bound(s@);
            assert(pow64(s@.len()) <= pow64(9)) by {
                lemma_pow64_mono(s@.len(), 9);
            }
            reveal_with_fuel(pow64, 10);
            assert(pow64(9) == 0x40_0000_0000_0000);
            let b = symbol_body(s@);
            assert((b * 256 + 14) % 256 == 14 && b * 256 + 14 < 0x4000_0000_0000_0000)
                by (nonlinear_arith)
                requires 0 <= b < 0x40_0000_0000_0000;
        }
        Symbol { bits }
    }

    /// The symbol whose value word is `bits`, if `bits` is one.
    pub fn from_bits(bits: u64) -> (r: Option<Symbol>)
        ensures
            r == if is_small_symbol_bits(bits) {
                Some(Symbol::spec_from_bits(bits))
            } else {
                None
            },
    {
        if bits % 256 == SMALL_SYMBOL_TAG && bits < 0x4000_0000_0000_0000 {
            Some(Symbol { bits })
        } else {
            None
        }
    }

    /// The value word of this symbol.
    pub fn bits(&self) -> (r: u64)
        ensures
            r == self.spec_bits(),
    {
        self.bits
    }
}

/// A symbol is the symbol of its value word, and the value word of the
/// symbol of `bits` is `bits`.
pub proof fn lemma_bits_round_trip(t: Symbol, bits: u64)
    ensures
        Symbol::spec_from_bits(t.spec_bits()) == t,
        Symbol::spec_from_bits(bits).spec_bits() == bits,
{
}

proof fn lemma_pow64_mono(a: nat, b: nat)
    requires
        a <= b,
    ensures
        1 <= pow64(a) <= pow64(b),
    decreases b,
{
    if b > 0 {
        lemma_pow64_mono(0, (b - 1) as nat);
        if a < b {
            lemma_pow64_mono(a, (b - 1) as nat);
        }
    }
}

} // verus!
