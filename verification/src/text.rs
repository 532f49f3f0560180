//! Numbers, hashes and keys in text.

use crate::types::{Nibbles, U256};
use vstd::prelude::*;

verus! {

/// The hexadecimal digit for `n`.
pub open spec fn digit(n: nat) -> char {
    "0123456789abcdef"@[n as int]
}

/// The `n` low hexadecimal digits of `x`, most significant first.
pub open spec fn hex_digits(x: nat, n: nat) -> Seq<char>
    decreases n,
{
    if n == 0 {
        Seq::empty()
    } else {
        hex_digits(x / 16, (n - 1) as nat).push(digit(x % 16))
    }
}

/// `x` in the number system with this base, without leading zeros.
pub open spec fn numeral(x: nat, base: nat) -> Seq<char>
    recommends
        1 < base <= 16,
    decreases x,
{
    if x < base || base <= 1 {
        seq![digit(x)]
    } else {
        proof {
            assert(x / base < x) by (nonlinear_arith)
                requires
                    1 < base <= x,
            ;
        }
        numeral(x / base, base).push(digit(x % base))
    }
}

/// `x` in decimal.
pub open spec fn decimal(x: nat) -> Seq<char> {
    numeral(x, 10)
}

/// A 256-bit word in hexadecimal, without leading zeros.
pub open spec fn word_numeral(word: U256) -> Seq<char> {
    if word.0 == 0 {
        numeral(word.1 as nat, 16)
    } else {
        numeral(word.0 as nat, 16) + hex_digits(word.1 as nat, 32)
    }
}

/// The nibbles of a trie key, after "0x".
pub open spec fn nibbles_hex(key: Nibbles) -> Seq<char> {
    if key.0 <= 32 {
        "0x"@ + hex_digits(key.1.1 as nat, key.0 as nat)
    } else {
        "0x"@ + hex_digits(key.1.0 as nat, (key.0 - 32) as nat) + hex_digits(key.1.1 as nat, 32)
    }
}

/// Whether the nibbles of a trie key can be told: there are no more than its integer holds.
pub open spec fn nibbles_are_held(key: Nibbles) -> bool {
    key.0 <= 64
}

/// What can be written in hexadecimal.
pub trait HexText {
    /// All digits, leading zeros included.
    spec fn hex(&self) -> Seq<char>;

    /// All digits, leading zeros included.
    fn to_hex(&self) -> (text: String)
        ensures
            text@ == self.hex(),
    ;
}

fn digit_text(n: u8) -> (text: &'static str)
    requires
        n < 16,
    ensures
        text@ == seq![digit(n as nat)],
{
    proof {
        reveal_strlit("0123456789abcdef");
    }
    let text = "0123456789abcdef".substring_ascii(n as usize, n as usize + 1);
    assert(text@ =~= seq![digit(n as nat)]);
    text
}

/// The `n` low hexadecimal digits of `x`, most significant first.
pub fn hex_digits_text(x: u128, n: usize) -> (text: String)
    ensures
        text@ == hex_digits(x as nat, n as nat),
    decreases n,
{
    if n == 0 {
        String::new()
    } else {
        let mut text = hex_digits_text(x / 16, n - 1);
        text.append(digit_text((x % 16) as u8));
        text
    }
}

fn numeral_text(x: u128, base: u8) -> (text: String)
    requires
        1 < base <= 16,
    ensures
        text@ == numeral(x as nat, base as nat),
    decreases x,
{
    if x < base as u128 {
        digit_text(x as u8).to_owned()
    } else {
        let whole: u128 = x / (base as u128);
        let rest: u128 = x % (base as u128);
        assert(whole < x) by (nonlinear_arith)
            requires
                1 < base <= x,
                whole == x / (base as u128),
        ;
        assert(rest < base) by (nonlinear_arith)
            requires
                1 < base,
                rest == x % (base as u128),
        ;
        let mut text = numeral_text(whole, base);
        text.append(digit_text(rest as u8));
        text
    }
}

/// `x` in decimal.
pub fn decimal_text(x: usize) -> (text: String)
    ensures
        text@ == decimal(x as nat),
{
    numeral_text(x as u128, 10)
}

/// A 256-bit word in hexadecimal, without leading zeros.
pub fn word_numeral_text(word: &U256) -> (text: String)
    ensures
        text@ == word_numeral(*word),
{
    if word.0 == 0 {
        numeral_text(word.1, 16)
    } else {
        let mut text = numeral_text(word.0, 16);
        text.append(hex_digits_text(word.1, 32).as_str());
        text
    }
}

/// The nibbles of a trie key, after "0x".
pub fn nibbles_hex_text(key: &Nibbles) -> (text: String)
    requires
        nibbles_are_held(*key),
    ensures
        text@ == nibbles_hex(*key),
{
    let mut text = "0x".to_owned();
    if key.0 <= 32 {
        text.append(hex_digits_text(key.1.1, key.0).as_str());
    } else {
        text.append(hex_digits_text(key.1.0, key.0 - 32).as_str());
        text.append(hex_digits_text(key.1.1, 32).as_str());
    }
    text
}

impl HexText for (u32, u128) {
    open spec fn hex(&self) -> Seq<char> {
        hex_digits(self.0 as nat, 8) + hex_digits(self.1 as nat, 32)
    }

    fn to_hex(&self) -> (text: String) {
        let mut text = hex_digits_text(self.0 as u128, 8);
        text.append(hex_digits_text(self.1, 32).as_str());
        text
    }
}

impl HexText for (u128, u128) {
    open spec fn hex(&self) -> Seq<char> {
        hex_digits(self.0 as nat, 32) + hex_digits(self.1 as nat, 32)
    }

    fn to_hex(&self) -> (text: String) {
        let mut text = hex_digits_text(self.0, 32);
        text.append(hex_digits_text(self.1, 32).as_str());
        text
    }
}

} // verus!
