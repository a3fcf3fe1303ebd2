//! Generated tokens as text, holding back incomplete UTF-8.
//!
//! One character is often several tokens. Turning each token into text on its own would
//! make every fragment a replacement character for good, so bytes are held back and let
//! go only at a boundary between characters.
use vstd::prelude::*;
#[allow(unused_imports)]
use vstd::utf8::{
    encode_utf8,
    length_of_first_scalar,
    pop_first_scalar,
    valid_first_scalar,
    valid_utf8,
};

verus! {

/// How many bytes from the front are whole characters.
pub open spec fn whole_len(bytes: Seq<u8>) -> nat
    decreases bytes.len(),
{
    if bytes.len() > 0 && valid_first_scalar(bytes) {
        (length_of_first_scalar(bytes) + whole_len(pop_first_scalar(bytes))) as nat
    } else {
        0
    }
}

/// The whole characters from the front are the longest valid prefix.
pub proof fn whole_characters_are_longest(bytes: Seq<u8>, n: int)
    requires
        0 <= n <= bytes.len(),
    ensures
        whole_len(bytes) <= bytes.len(),
        valid_utf8(bytes.take(whole_len(bytes) as int)),
        valid_utf8(bytes.take(n)) ==> n <= whole_len(bytes),
    decreases bytes.len(),
{
    if bytes.len() > 0 && valid_first_scalar(bytes) {
        let k = length_of_first_scalar(bytes);
        let rest = pop_first_scalar(bytes);
        let m = whole_len(bytes) as int;
        whole_characters_are_longest(rest, if n >= k {
            n - k
        } else {
            0
        });
        let front = bytes.take(m);
        assert(k <= m);
        assert(valid_first_scalar(front));
        assert(pop_first_scalar(front) =~= rest.take(m - k));
        if n >= k {
            let other = bytes.take(n);
            if other.len() > 0 {
                assert(length_of_first_scalar(other) == k);
                assert(pop_first_scalar(other) =~= rest.take(n - k));
            }
        } else {
            assert(k <= whole_len(bytes));
        }
    } else {
        assert(bytes.take(0).len() == 0);
        if n > 0 && valid_utf8(bytes.take(n)) {
            let other = bytes.take(n);
            assert(valid_first_scalar(other));
            assert(other[0] == bytes[0]);
            assert(valid_first_scalar(bytes));
        }
    }
}

/// Behind whole characters, counting goes on where they end.
proof fn whole_len_behind(front: Seq<u8>, back: Seq<u8>)
    requires
        valid_utf8(front),
    ensures
        whole_len(front + back) == front.len() + whole_len(back),
    decreases front.len(),
{
    if front.len() == 0 {
        assert(front + back =~= back);
    } else {
        let all = front + back;
        let k = length_of_first_scalar(front);
        assert(valid_first_scalar(all));
        assert(length_of_first_scalar(all) == k);
        assert(pop_first_scalar(all) =~= pop_first_scalar(front) + back);
        whole_len_behind(pop_first_scalar(front), back);
    }
}

/// The length of the first character from `at` on; 0 where no whole one stands there.
fn first_len(bytes: &[u8], at: usize) -> (n: usize)
    requires
        at < bytes@.len(),
    ensures
        ({
            let rest = bytes@.subrange(at as int, bytes@.len() as int);
            if valid_first_scalar(rest) {
                n == length_of_first_scalar(rest) && at + n <= bytes@.len()
            } else {
                n == 0
            }
        }),
{
    let ghost rest = bytes@.subrange(at as int, bytes@.len() as int);
    let left: usize = bytes.len() - at;
    let b0: u8 = bytes[at];
    assert(rest[0] == b0);
    if b0 <= 0x7f {
        proof {
            assert((b0 & 0x7F) <= 0x7f) by (bit_vector);
        }
        return 1;
    }
    if b0 < 0xc0 || b0 > 0xf7 || left < 2 {
        return 0;
    }
    let b1: u8 = bytes[at + 1];
    assert(rest[1] == b1);
    if b1 < 0x80 || b1 > 0xbf {
        return 0;
    }
    if b0 <= 0xdf {
        let code: u32 = (((b0 & 0x1F) as u32) << 6) | ((b1 & 0x3f) as u32);
        assert(code < 0x800) by (bit_vector)
            requires
                code == (((b0 & 0x1F) as u32) << 6) | ((b1 & 0x3f) as u32),
        ;
        return if 0x80 <= code {
            2
        } else {
            0
        };
    }
    if left < 3 {
        return 0;
    }
    let b2: u8 = bytes[at + 2];
    assert(rest[2] == b2);
    if b2 < 0x80 || b2 > 0xbf {
        return 0;
    }
    if b0 <= 0xef {
        let code: u32 = (((b0 & 0x0F) as u32) << 12) | (((b1 & 0x3f) as u32) << 6) | ((b2
            & 0x3f) as u32);
        return if 0x800 <= code && !(0xD800 <= code && code <= 0xDFFF) {
            3
        } else {
            0
        };
    }
    if left < 4 {
        return 0;
    }
    let b3: u8 = bytes[at + 3];
    assert(rest[3] == b3);
    if b3 < 0x80 || b3 > 0xbf {
        return 0;
    }
    let code: u32 = (((b0 & 0x07) as u32) << 18) | (((b1 & 0x3f) as u32) << 12) | (((b2
        & 0x3f) as u32) << 6) | ((b3 & 0x3f) as u32);
    if 0x10000 <= code && code <= 0x10ffff {
        4
    } else {
        0
    }
}

/// How many bytes from the front are whole characters.
pub fn whole_prefix(bytes: &[u8]) -> (n: usize)
    ensures
        n == whole_len(bytes@),
        n <= bytes@.len(),
{
    let mut n: usize = 0;
    assert(bytes@.subrange(0, bytes@.len() as int) =~= bytes@);
    while n < bytes.len()
        invariant
            n <= bytes@.len(),
            n + whole_len(bytes@.subrange(n as int, bytes@.len() as int)) == whole_len(bytes@),
        decreases bytes@.len() - n,
    {
        let k: usize = first_len(bytes, n);
        let ghost rest = bytes@.subrange(n as int, bytes@.len() as int);
        if k == 0 {
            return n;
        }
        assert(pop_first_scalar(rest) =~= bytes@.subrange(n + k, bytes@.len() as int));
        n = n + k;
    }
    assert(bytes@.subrange(n as int, bytes@.len() as int).len() == 0);
    n
}

/// Starts colouring generated text.
pub const COLOR_GEN: &'static str = "\x1b[32m";

/// Ends it.
pub const COLOR_OFF: &'static str = "\x1b[0m";

/// What a [`TokenWriter`] holds back.
pub struct TokenWriter {
    pub pending: Vec<u8>,
    pub colored: bool,
}

/// How generated tokens are shown.
#[derive(Debug, Clone, Copy, PartialEq, Eq, Structural)]
pub struct Shown {
    pub color: bool,
    /// Control tokens are rendered instead of hidden.
    pub special: bool,
}

fn push_bytes(out: &mut Vec<u8>, text: &str)
    ensures
        final(out)@ == old(out)@ + encode_utf8(text@),
{
    out.extend_from_slice(text.as_bytes());
    assert(out@ =~= old(out)@ + encode_utf8(text@));
}

impl TokenWriter {
    pub fn new() -> (writer: Self)
        ensures
            writer.pending@.len() == 0,
            !writer.colored,
    {
        TokenWriter { pending: Vec::new(), colored: false }
    }

    /// Takes a token's bytes in and gives back what can be shown now: everything up to a
    /// trailing partial character.
    pub fn push(&mut self, bytes: &[u8]) -> (ready: Vec<u8>)
        ensures
            final(self).colored == old(self).colored,
            ({
                let all = old(self).pending@ + bytes@;
                let n = whole_len(all) as int;
                &&& ready@ == all.take(n)
                &&& final(self).pending@ == all.skip(n)
                &&& valid_utf8(ready@)
            }),
    {
        let ghost all = self.pending@ + bytes@;
        let mut held: Vec<u8> = Vec::new();
        held.append(&mut self.pending);
        held.extend_from_slice(bytes);
        assert(held@ =~= all);
        let n: usize = whole_prefix(held.as_slice());
        proof {
            whole_characters_are_longest(all, 0);
        }
        let rest = held.split_off(n);
        self.pending = rest;
        assert(held@ =~= all.take(n as int));
        assert(self.pending@ =~= all.skip(n as int));
        held
    }

    /// [`Self::push`] with colour and control tokens: a control token's text is shown,
    /// uncoloured, where that is asked for.
    pub fn push_visible(
        &mut self,
        bytes: &[u8],
        control: Option<&str>,
        shown: Shown,
    ) -> (ready: Vec<u8>)
        ensures
            ({
                let all = old(self).pending@ + bytes@;
                let n = whole_len(all) as int;
                let none = Seq::<u8>::empty();
                match (shown.special, control) {
                    (true, Some(text)) => {
                        &&& *final(self) == *old(self)
                        &&& ready@ == (if shown.color {
                            encode_utf8(COLOR_OFF@)
                        } else {
                            none
                        }) + encode_utf8(text@) + (if shown.color {
                            encode_utf8(COLOR_GEN@)
                        } else {
                            none
                        })
                    },
                    _ => {
                        &&& final(self).colored == (old(self).colored || shown.color)
                        &&& final(self).pending@ == all.skip(n)
                        &&& ready@ == (if shown.color && !old(self).colored {
                            encode_utf8(COLOR_GEN@)
                        } else {
                            none
                        }) + all.take(n)
                    },
                }
            }),
    {
        let mut ready: Vec<u8> = Vec::new();
        if shown.special {
            if let Some(text) = control {
                if shown.color {
                    push_bytes(&mut ready, COLOR_OFF);
                }
                push_bytes(&mut ready, text);
                if shown.color {
                    push_bytes(&mut ready, COLOR_GEN);
                }
                assert(ready@ =~= (if shown.color {
                    encode_utf8(COLOR_OFF@)
                } else {
                    Seq::<u8>::empty()
                }) + encode_utf8(text@) + (if shown.color {
                    encode_utf8(COLOR_GEN@)
                } else {
                    Seq::<u8>::empty()
                }));
                return ready;
            }
        }
        if shown.color && !self.colored {
            push_bytes(&mut ready, COLOR_GEN);
            self.colored = true;
        }
        let ghost front = ready@;
        let mut text = self.push(bytes);
        let ghost back = text@;
        ready.append(&mut text);
        assert(ready@ =~= front + back);
        ready
    }

    /// What is still held back, which was malformed: shown as it is rather than dropped.
    pub fn finish(&mut self) -> (rest: Vec<u8>)
        ensures
            rest@ == old(self).pending@,
            final(self).pending@.len() == 0,
            final(self).colored == old(self).colored,
    {
        let mut rest: Vec<u8> = Vec::new();
        rest.append(&mut self.pending);
        assert(rest@ =~= old(self).pending@);
        rest
    }
}

/// Splitting text over tokens changes nothing: what two tokens show together is what
/// their joined bytes would, and so is what they leave behind.
pub proof fn tokens_show_what_their_bytes_do(pending: Seq<u8>, first: Seq<u8>, second: Seq<u8>)
    ensures
        ({
            let a = pending + first;
            let n = whole_len(a) as int;
            let b = a.skip(n) + second;
            let m = whole_len(b) as int;
            let all = pending + (first + second);
            &&& a.take(n) + b.take(m) == all.take(whole_len(all) as int)
            &&& b.skip(m) == all.skip(whole_len(all) as int)
        }),
{
    let a = pending + first;
    let n = whole_len(a) as int;
    let b = a.skip(n) + second;
    let m = whole_len(b) as int;
    let all = pending + (first + second);
    whole_characters_are_longest(a, 0);
    whole_characters_are_longest(b, 0);
    whole_len_behind(a.take(n), b);
    assert(a.take(n) + b =~= all);
    whole_characters_are_longest(all, 0);
    assert(a.take(n) + b.take(m) =~= all.take(n + m));
    assert(b.skip(m) =~= all.skip(n + m));
}

/// Valid text comes out whole: nothing is held back behind it.
pub proof fn valid_text_is_never_held_back(text: Seq<u8>)
    requires
        valid_utf8(text),
    ensures
        text.take(whole_len(text) as int) == text,
        text.skip(whole_len(text) as int).len() == 0,
{
    whole_characters_are_longest(text, text.len() as int);
    assert(text.take(text.len() as int) =~= text);
}

} // verus!
