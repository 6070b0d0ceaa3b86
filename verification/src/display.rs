//! Human-readable transaction summaries for wallet signing prompts, with
//! exact character-level contracts.

use vstd::prelude::*;

use vstd::string::StringExecFns;

use crate::intent::{Intent, IntentKind, SignedIntent};
use crate::signature::SignedTransaction;
use crate::types::Transaction;

verus! {

/// The character of one decimal digit.
pub open spec fn spec_digit_char(d: int) -> char {
    if d == 0 {
        '0'
    } else if d == 1 {
        '1'
    } else if d == 2 {
        '2'
    } else if d == 3 {
        '3'
    } else if d == 4 {
        '4'
    } else if d == 5 {
        '5'
    } else if d == 6 {
        '6'
    } else if d == 7 {
        '7'
    } else if d == 8 {
        '8'
    } else {
        '9'
    }
}

/// The decimal digits of a number, most significant first.
pub open spec fn spec_dec(n: int) -> Seq<char>
    decreases n,
{
    if n < 10 {
        seq![spec_digit_char(n)]
    } else {
        spec_dec(n / 10).push(spec_digit_char(n % 10))
    }
}

/// The character of one hex nibble, lowercase.
pub open spec fn spec_hex_char(d: int) -> char {
    if d < 10 {
        spec_digit_char(d)
    } else if d == 10 {
        'a'
    } else if d == 11 {
        'b'
    } else if d == 12 {
        'c'
    } else if d == 13 {
        'd'
    } else if d == 14 {
        'e'
    } else {
        'f'
    }
}

/// Lowercase hex of a byte string, two characters per byte, in order.
pub open spec fn spec_hex(s: Seq<u8>) -> Seq<char>
    decreases s.len(),
{
    if s.len() == 0 {
        Seq::empty()
    } else {
        seq![spec_hex_char(s[0] as int / 16), spec_hex_char(s[0] as int % 16)] + spec_hex(s.drop_first())
    }
}

/// The summary of a payload.
pub open spec fn spec_display_payload(tx: Transaction) -> Seq<char> {
    match tx.payload {
        crate::types::TransactionPayload::Transfer { to, amount } => "Transfer "@ + spec_dec(
            amount as int,
        ) + " to "@ + spec_hex(to.0@.take(8)),
        crate::types::TransactionPayload::Bond { amount } => "Bond "@ + spec_dec(amount as int)
            + " stake"@,
        crate::types::TransactionPayload::Unbond { amount } => "Unbond "@ + spec_dec(
            amount as int,
        ) + " stake"@,
        crate::types::TransactionPayload::ContractCall { contract, .. } => "Call contract "@
            + spec_hex(contract.0@.take(8)),
        crate::types::TransactionPayload::ContractDeploy { .. } => "Deploy contract"@,
    }
}

/// The summary of a whole transaction: sender prefix, nonce, payload.
pub open spec fn spec_display_tx(tx: Transaction) -> Seq<char> {
    "From: "@ + spec_hex(tx.sender.0@.take(8)) + " | Nonce: "@ + spec_dec(tx.nonce as int) + " | "@
        + spec_display_payload(tx)
}

/// One decimal digit's character.
fn digit_char(d: u128) -> (r: char)
    requires
        d < 10,
    ensures
        r == spec_digit_char(d as int),
{
    match d {
        0 => '0',
        1 => '1',
        2 => '2',
        3 => '3',
        4 => '4',
        5 => '5',
        6 => '6',
        7 => '7',
        8 => '8',
        _ => '9',
    }
}

/// Relies on String::push of std: appends one character.
#[verifier::external_body]
fn push_char(s: &mut String, c: char)
    ensures
        final(s)@ == old(s)@.push(c),
{
    s.push(c);
}

/// The decimal rendering of a number.
pub fn u128_to_string(n: u128) -> (r: String)
    ensures
        r@ == spec_dec(n as int),
{
    let mut digits: Vec<char> = Vec::new();
    let mut m = n;
    loop
        invariant_except_break
            spec_dec(n as int) == spec_dec(m as int) + digits@.reverse(),
        ensures
            spec_dec(n as int) == digits@.reverse(),
        decreases m,
    {
        proof {
            assert(digits@.push(spec_digit_char(m as int % 10)).reverse() =~= seq![
                spec_digit_char(m as int % 10),
            ] + digits@.reverse());
        }
        let d = m % 10;
        digits.push(digit_char(d));
        m = m / 10;
        if m == 0 {
            break ;
        }
        proof {
            assert(spec_dec(n as int) =~= spec_dec(m as int) + digits@.reverse());
        }
    }
    let mut out = String::new();
    let mut i: usize = digits.len();
    while i > 0
        invariant
            0 <= i <= digits@.len(),
            out@.len() == digits@.len() - i,
            forall|k: int|
                0 <= k < out@.len() ==> out@[k] == digits@.reverse()[k],
        decreases i,
    {
        i = i - 1;
        push_char(&mut out, digits[i]);
    }
    proof {
        assert(out@ =~= digits@.reverse());
    }
    out
}

/// The lowercase hex of a byte string.
pub fn hex_string(bytes: &[u8]) -> (r: String)
    ensures
        r@ == spec_hex(bytes@),
{
    let mut out = String::new();
    let mut i: usize = 0;
    proof {
        assert(bytes@.skip(0) =~= bytes@);
    }
    while i < bytes.len()
        invariant
            0 <= i <= bytes@.len(),
            spec_hex(bytes@) == out@ + spec_hex(bytes@.skip(i as int)),
        decreases bytes@.len() - i,
    {
        proof {
            assert(bytes@.skip(i as int)[0] == bytes@[i as int]);
            assert(bytes@.skip(i as int).drop_first() =~= bytes@.skip(i as int + 1));
        }
        let b = bytes[i];
        let hi = (b / 16) as u128;
        let lo = (b % 16) as u128;
        push_char(&mut out, hex_char(hi));
        push_char(&mut out, hex_char(lo));
        proof {
            assert(out@ + spec_hex(bytes@.skip(i as int + 1)) =~= out@.drop_last().drop_last() + (
            seq![
                spec_hex_char(bytes@[i as int] as int / 16),
                spec_hex_char(bytes@[i as int] as int % 16),
            ] + spec_hex(bytes@.skip(i as int + 1))));
        }
        i = i + 1;
    }
    proof {
        assert(bytes@.skip(bytes@.len() as int) =~= Seq::<u8>::empty());
        assert(out@ + Seq::<char>::empty() =~= out@);
    }
    out
}

/// One hex nibble's character.
fn hex_char(d: u128) -> (r: char)
    requires
        d < 16,
    ensures
        r == spec_hex_char(d as int),
{
    if d < 10 {
        digit_char(d)
    } else {
        match d {
            10 => 'a',
            11 => 'b',
            12 => 'c',
            13 => 'd',
            14 => 'e',
            _ => 'f',
        }
    }
}

/// The first eight bytes of a 32-byte value, for short display.
fn prefix8(bytes: &[u8; 32]) -> (r: Vec<u8>)
    ensures
        r@ == bytes@.take(8),
{
    let mut out: Vec<u8> = Vec::new();
    let mut i: usize = 0;
    while i < 8
        invariant
            0 <= i <= 8,
            out@ == bytes@.take(i as int),
        decreases 8 - i,
    {
        out.push(bytes[i]);
        proof {
            assert(bytes@.take(i as int).push(bytes@[i as int]) =~= bytes@.take(i as int + 1));
        }
        i = i + 1;
    }
    out
}

impl Transaction {
    /// A human-readable summary for a wallet's signing prompt: the sender's
    /// short hex, the nonce, and the payload in words.
    pub fn display_for_signing(&self) -> (r: String)
        ensures
            r@ == spec_display_tx(*self),
    {
        let mut out = String::new();
        out.append("From: ");
        let sp = prefix8(&self.sender.0);
        let sh = hex_string(sp.as_slice());
        out.append(sh.as_str());
        out.append(" | Nonce: ");
        let ns = u128_to_string(self.nonce as u128);
        out.append(ns.as_str());
        out.append(" | ");
        match &self.payload {
            crate::types::TransactionPayload::Transfer { to, amount } => {
                out.append("Transfer ");
                let amt = u128_to_string(*amount);
                out.append(amt.as_str());
                out.append(" to ");
                let tp = prefix8(&to.0);
                let th = hex_string(tp.as_slice());
                out.append(th.as_str());
            },
            crate::types::TransactionPayload::Bond { amount } => {
                out.append("Bond ");
                let amt = u128_to_string(*amount);
                out.append(amt.as_str());
                out.append(" stake");
            },
            crate::types::TransactionPayload::Unbond { amount } => {
                out.append("Unbond ");
                let amt = u128_to_string(*amount);
                out.append(amt.as_str());
                out.append(" stake");
            },
            crate::types::TransactionPayload::ContractCall { contract, .. } => {
                out.append("Call contract ");
                let cp = prefix8(&contract.0);
                let ch = hex_string(cp.as_slice());
                out.append(ch.as_str());
            },
            crate::types::TransactionPayload::ContractDeploy { .. } => {
                out.append("Deploy contract");
            },
        }
        proof {
            assert(out@ =~= spec_display_tx(*self));
        }
        out
    }
}

impl SignedTransaction {
    /// The summary of the inner transaction.
    pub fn display_for_signing(&self) -> (r: String)
        ensures
            r@ == spec_display_tx(self.tx),
    {
        self.tx.display_for_signing()
    }
}


/// The summary of an intent kind.
pub open spec fn spec_display_kind(k: IntentKind) -> Seq<char> {
    match k {
        IntentKind::Swap { from_asset, to_asset, amount, min_out } => "Swap "@ + spec_dec(
            amount as int,
        ) + " from "@ + spec_hex(from_asset.0@.take(8)) + " to "@ + spec_hex(to_asset.0@.take(8))
            + (match min_out {
            Some(m) => " (min out: "@ + spec_dec(m as int) + ")"@,
            None => Seq::empty(),
        }),
        IntentKind::Transfer { to, amount } => "Transfer "@ + spec_dec(amount as int) + " to "@
            + spec_hex(to.0@.take(8)),
        IntentKind::Custom(_) => "Custom intent"@,
    }
}

/// The summary of a whole intent: signer, nonce, deadline, goal.
pub open spec fn spec_display_intent(i: Intent) -> Seq<char> {
    "From: "@ + spec_hex(i.signer.0@.take(8)) + " | Nonce: "@ + spec_dec(i.nonce as int)
        + " | Deadline: #"@ + spec_dec(i.deadline_block as int) + " | "@ + spec_display_kind(
        i.kind,
    )
}

impl SignedIntent {
    /// A human-readable summary for a wallet's signing prompt.
    pub fn display_for_signing(&self) -> (r: String)
        ensures
            r@ == spec_display_intent(self.intent),
    {
        let mut out = String::new();
        out.append("From: ");
        let sp = prefix8(&self.intent.signer.0);
        let sh = hex_string(sp.as_slice());
        out.append(sh.as_str());
        out.append(" | Nonce: ");
        let ns = u128_to_string(self.intent.nonce as u128);
        out.append(ns.as_str());
        out.append(" | Deadline: #");
        let ds = u128_to_string(self.intent.deadline_block as u128);
        out.append(ds.as_str());
        out.append(" | ");
        match &self.intent.kind {
            IntentKind::Swap { from_asset, to_asset, amount, min_out } => {
                out.append("Swap ");
                let amt = u128_to_string(*amount);
                out.append(amt.as_str());
                out.append(" from ");
                let fp = prefix8(&from_asset.0);
                let fh = hex_string(fp.as_slice());
                out.append(fh.as_str());
                out.append(" to ");
                let tp = prefix8(&to_asset.0);
                let th = hex_string(tp.as_slice());
                out.append(th.as_str());
                match min_out {
                    Some(m) => {
                        out.append(" (min out: ");
                        let ms = u128_to_string(*m);
                        out.append(ms.as_str());
                        out.append(")");
                        proof {
                            assert(out@ =~= spec_display_intent(self.intent));
                        }
                    },
                    None => {
                        proof {
                            assert(out@ =~= spec_display_intent(self.intent));
                        }
                    },
                }
            },
            IntentKind::Transfer { to, amount } => {
                out.append("Transfer ");
                let amt = u128_to_string(*amount);
                out.append(amt.as_str());
                out.append(" to ");
                let tp = prefix8(&to.0);
                let th = hex_string(tp.as_slice());
                out.append(th.as_str());
                proof {
                    assert(out@ =~= spec_display_intent(self.intent));
                }
            },
            IntentKind::Custom(_) => {
                out.append("Custom intent");
                proof {
                    assert(out@ =~= spec_display_intent(self.intent));
                }
            },
        }
        out
    }
}

} // verus!
