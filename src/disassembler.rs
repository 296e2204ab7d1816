//! The disassembler: an instruction stream back to a listing, one line per
//! instruction.
//!
//! A line reads `OFFS: OP NAME` with the offset in (at least) four and the
//! opcode in two upper-case hexadecimal digits, followed for an instruction
//! with an operand by the name padded to ten characters and the operand:
//! signed decimal for `BIPUSH` and `IPUSH`, unsigned decimal padded to eight
//! characters and then its hexadecimal in parentheses for the address
//! operands, and the caller's rendering for a float. A byte that is no
//! opcode, or an opcode whose operand runs past the end, gives an `UNKNOWN`
//! line and decoding goes on at the next byte.

use crate::codec::{decode_u32, decode_u64, read_u32, read_u64};
use crate::op::{get_info, is_opcode, name_of, size_of, IPUSH};
use crate::runner::sign_extend;
use crate::text::{
    decimal_text, digits, hex_text, push_decimal, push_decimal_padded, push_hex, push_padded,
    space_pad,
};
use vstd::prelude::*;
use vstd::string::StringExecFns;

verus! {

/// Whether `f` may return text with the characters `s` for the pattern `b`.
pub open spec fn shows<F: Fn(u64) -> String>(f: F, b: u64, s: Seq<char>) -> bool {
    exists|r: String| r@ == s && #[trigger] call_ensures(f, (b,), r)
}

/// `f` can be called on any pattern and gives the same text for the same
/// pattern.
pub open spec fn is_float_renderer<F: Fn(u64) -> String>(f: F) -> bool {
    &&& forall|b: u64| call_requires(f, (b,))
    &&& forall|b: u64, r1: String, r2: String|
        #[trigger] call_ensures(f, (b,), r1) && #[trigger] call_ensures(f, (b,), r2) ==> r1@
            == r2@
}

/// The text `f` gives for the pattern `b`.
pub open spec fn float_text<F: Fn(u64) -> String>(f: F, b: u64) -> Seq<char> {
    choose|s: Seq<char>| #[trigger] shows(f, b, s)
}

/// The renderer `f` as a spec function.
pub open spec fn texts_of<F: Fn(u64) -> String>(f: F) -> spec_fn(u64) -> Seq<char> {
    |b: u64| float_text(f, b)
}

/// Whether a whole instruction starts at `ip`.
pub open spec fn decodable(code: Seq<u8>, ip: nat) -> bool {
    ip < code.len() && is_opcode(code[ip as int]) && ip + size_of(code[ip as int]) <= code.len()
}

/// The operand bytes of the instruction at `ip`.
pub open spec fn operand_bytes(code: Seq<u8>, ip: nat) -> Seq<u8> {
    code.subrange(ip + 1int, (ip + size_of(code[ip as int])) as int)
}

/// The text after the opcode byte's hexadecimal.
pub open spec fn body_text(code: Seq<u8>, ip: nat, ft: spec_fn(u64) -> Seq<char>) -> Seq<char> {
    let op = code[ip as int];
    let name = name_of(op);
    let b = operand_bytes(code, ip);
    let size = size_of(op);
    if !decodable(code, ip) {
        " UNKNOWN"@
    } else if size == 1 {
        " "@ + name
    } else if size == 2 {
        " "@ + space_pad(name, 10) + " "@ + decimal_text(sign_extend(b[0]) as int)
    } else if size == 5 && op == IPUSH {
        " "@ + space_pad(name, 10) + " "@ + decimal_text(
            #[verifier::truncate]
            (decode_u32(b) as i32) as int,
        )
    } else if size == 5 {
        " "@ + space_pad(name, 10) + " "@ + space_pad(digits(decode_u32(b) as nat, 10), 8)
            + " (0x"@ + hex_text(decode_u32(b) as nat, 2) + ")"@
    } else {
        " "@ + space_pad(name, 10) + " "@ + ft(decode_u64(b))
    }
}

/// The listing line of the instruction at `ip`, newline included.
pub open spec fn line_text(code: Seq<u8>, ip: nat, ft: spec_fn(u64) -> Seq<char>) -> Seq<char> {
    hex_text(ip, 4) + ": "@ + hex_text(code[ip as int] as nat, 2) + body_text(code, ip, ft) + "\n"@
}

/// Where the line after the one at `ip` starts.
pub open spec fn next_ip(code: Seq<u8>, ip: nat) -> nat {
    if decodable(code, ip) {
        ip + size_of(code[ip as int])
    } else {
        ip + 1
    }
}

/// The listing from `ip` on.
pub open spec fn listing_from(code: Seq<u8>, ip: nat, ft: spec_fn(u64) -> Seq<char>) -> Seq<char>
    decreases code.len() - ip,
{
    if ip >= code.len() {
        Seq::empty()
    } else {
        line_text(code, ip, ft) + listing_from(code, next_ip(code, ip), ft)
    }
}

/// The listing of a whole stream.
pub open spec fn listing(code: Seq<u8>, ft: spec_fn(u64) -> Seq<char>) -> Seq<char> {
    listing_from(code, 0, ft)
}

/// Appends the text after the opcode byte's hexadecimal, and gives where
/// the next line starts.
fn push_body<F: Fn(u64) -> String>(out: &mut String, bytecode: &Vec<u8>, ip: usize, float_text: &F) -> (next: usize)
    requires
        ip < bytecode.len(),
        is_float_renderer(*float_text),
    ensures
        final(out)@ == old(out)@ + body_text(bytecode@, ip as nat, texts_of(*float_text)),
        next == next_ip(bytecode@, ip as nat),
{
    let cur = bytecode[ip];
    let info = get_info(cur);
    let size: usize = match &info {
        Some(i) => i.size as usize,
        None => 0,
    };
    if size == 0 || bytecode.len() - ip < size {
        out.append(" UNKNOWN");
        return ip + 1;
    }
    let name = match info {
        Some(i) => i.name,
        None => "",
    };
    let ghost b = operand_bytes(bytecode@, ip as nat);
    out.append(" ");
    if size == 1 {
        out.append(name);
    } else {
        push_padded(out, name, 10);
        out.append(" ");
        if size == 2 {
            let x = bytecode[ip + 1];
            assert(b[0] == x);
            let v: i64 = if x < 128 {
                x as i64
            } else {
                x as i64 - 256
            };
            push_decimal(out, v);
        } else if size == 5 {
            let v = read_u32(bytecode.as_slice(), ip + 1);
            assert(bytecode@.subrange(ip + 1int, ip + 1int + 4) =~= b);
            if cur == IPUSH {
                let signed: i32 = #[verifier::truncate]
                (v as i32);
                push_decimal(out, signed as i64);
            } else {
                push_decimal_padded(out, v as u64, 8);
                out.append(" (0x");
                push_hex(out, v as u64, 2);
                out.append(")");
            }
        } else {
            let bits = read_u64(bytecode.as_slice(), ip + 1);
            assert(bytecode@.subrange(ip + 1int, ip + 1int + 8) =~= b);
            let text = float_text(bits);
            proof {
                assert(shows(*float_text, bits, text@));
                let other = choose|s: Seq<char>| #[trigger] shows(*float_text, bits, s);
                assert(shows(*float_text, bits, other));
            }
            out.append(text.as_str());
        }
    }
    assert(final(out)@ =~= old(out)@ + body_text(bytecode@, ip as nat, texts_of(*float_text)));
    ip + size
}

/// The listing of `bytecode`. `float_text` renders the operand of `FPUSH`
/// from its binary64 pattern. Every byte sequence has a listing.
pub fn disassemble_bytecode<F: Fn(u64) -> String>(bytecode: Vec<u8>, float_text: &F) -> (r: String)
    requires
        is_float_renderer(*float_text),
    ensures
        r@ == listing(bytecode@, texts_of(*float_text)),
{
    let ghost ft = texts_of(*float_text);
    let ghost code = bytecode@;
    let mut ip: usize = 0;
    let mut out = String::new();
    while ip < bytecode.len()
        invariant
            code == bytecode@,
            ip <= bytecode.len(),
            ft == texts_of(*float_text),
            is_float_renderer(*float_text),
            out@ + listing_from(code, ip as nat, ft) == listing(code, ft),
        decreases bytecode.len() - ip,
    {
        let ghost before = out@;
        push_hex(&mut out, ip as u64, 4);
        out.append(": ");
        push_hex(&mut out, bytecode[ip] as u64, 2);
        let next = push_body(&mut out, &bytecode, ip, float_text);
        out.append("\n");
        assert(out@ =~= before + line_text(code, ip as nat, ft));
        assert(before + listing_from(code, ip as nat, ft) =~= out@ + listing_from(code, next as nat, ft));
        ip = next;
    }
    assert(out@ =~= out@ + listing_from(code, ip as nat, ft));
    out
}

} // verus!
