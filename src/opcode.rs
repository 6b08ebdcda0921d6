use vstd::prelude::*;

verus! {

/// A decoded CHIP-8 instruction with its operands: `x` and `y` name
/// registers (0 to 15), `kk` is an immediate byte, `nnn` a 12-bit address
/// and `n` a sprite height (0 to 15).
#[derive(Clone, Copy, Debug, PartialEq, Eq, Structural)]
pub enum Opcode {
    /// `0nnn`: machine routine call, ignored.
    Sys,
    /// `00E0`: clear the display.
    Cls,
    /// `00EE`: return from a subroutine.
    Ret,
    /// `1nnn`: jump to `nnn`.
    Jp(u16),
    /// `2nnn`: call the subroutine at `nnn`.
    Call(u16),
    /// `3xkk`: skip the next instruction if `Vx == kk`.
    Se(u8, u8),
    /// `4xkk`: skip the next instruction if `Vx != kk`.
    Sne(u8, u8),
    /// `5xy0`: skip the next instruction if `Vx == Vy`.
    Ser(u8, u8),
    /// `6xkk`: `Vx = kk`.
    Ld(u8, u8),
    /// `7xkk`: `Vx = Vx + kk`, wrapping, flag untouched.
    Add(u8, u8),
    /// `8xy0`: `Vx = Vy`.
    Ldr(u8, u8),
    /// `8xy1`: `Vx |= Vy`.
    Or(u8, u8),
    /// `8xy2`: `Vx &= Vy`.
    And(u8, u8),
    /// `8xy3`: `Vx ^= Vy`.
    Xor(u8, u8),
    /// `8xy4`: `Vx = Vx + Vy`, wrapping; `VF` is the carry.
    Addr(u8, u8),
    /// `8xy5`: `Vx = Vx - Vy`, wrapping; `VF` is 1 when `Vx >= Vy`.
    Subr(u8, u8),
    /// `8xy6`: `VF` is the low bit of `Vx`, then `Vx >>= 1`.
    Shr(u8),
    /// `8xy7`: `Vx = Vy - Vx`, wrapping; `VF` set to 1 when `Vx > Vy`.
    Subn(u8, u8),
    /// `8xyE`: `VF` is the high bit of `Vx`, then `Vx <<= 1`.
    Shl(u8),
    /// `9xy0`: skip the next instruction if `Vx != Vy`.
    Sner(u8, u8),
    /// `Annn`: `I = nnn`.
    Ldi(u16),
    /// `Bnnn`: jump to `nnn + V0`.
    Jpr(u16),
    /// `Cxkk`: `Vx = kk & random byte`.
    Rnd(u8, u8),
    /// `Dxyn`: draw the `n`-byte sprite at `I` at `(Vx, Vy)`; `VF` is the collision.
    Drw(u8, u8, u8),
    /// `Ex9E`: skip the next instruction if key `Vx` is down.
    Skp(u8),
    /// `ExA1`: skip the next instruction if key `Vx` is up.
    Sknp(u8),
    /// `Fx07`: `Vx = delay timer`.
    LdDt(u8),
    /// `Fx0A`: wait for a key press and store the key in `Vx`.
    LdK(u8),
    /// `Fx15`: `delay timer = Vx`.
    DtLd(u8),
    /// `Fx18`: `sound timer = Vx`.
    StLd(u8),
    /// `Fx1E`: `I = I + Vx`.
    AddI(u8),
    /// `Fx29`: `I = Vx * 5`, the address of the font glyph for `Vx`.
    LdF(u8),
    /// `Fx33`: the decimal digits of `Vx` at `I`, `I + 1`, `I + 2`.
    LdB(u8),
    /// `Fx55`: store `V0` to `Vx` inclusive at `I` onwards.
    LdIR(u8),
    /// `Fx65`: load `V0` to `Vx` inclusive from `I` onwards.
    LdRI(u8),
}

/// The top four bits of an instruction: its family.
pub open spec fn family(w: u16) -> u16 {
    w / 0x1000
}

/// The second nibble: register `x`.
pub open spec fn nib_x(w: u16) -> u8 {
    ((w / 0x100) % 0x10) as u8
}

/// The third nibble: register `y`.
pub open spec fn nib_y(w: u16) -> u8 {
    ((w / 0x10) % 0x10) as u8
}

/// The lowest nibble.
pub open spec fn nib_n(w: u16) -> u8 {
    (w % 0x10) as u8
}

/// The low byte: an immediate.
pub open spec fn low_byte(w: u16) -> u8 {
    (w % 0x100) as u8
}

/// The low twelve bits: an address.
pub open spec fn addr_of(w: u16) -> u16 {
    w % 0x1000
}

/// The operation that an instruction word stands for; words outside the
/// instruction table stand for `Sys`.
pub open spec fn decoded(w: u16) -> Opcode {
    let x = nib_x(w);
    let y = nib_y(w);
    let n = nib_n(w);
    let kk = low_byte(w);
    let nnn = addr_of(w);
    let f = family(w);
    if f == 0x0 {
        if w == 0x00E0 {
            Opcode::Cls
        } else if w == 0x00EE {
            Opcode::Ret
        } else {
            Opcode::Sys
        }
    } else if f == 0x1 {
        Opcode::Jp(nnn)
    } else if f == 0x2 {
        Opcode::Call(nnn)
    } else if f == 0x3 {
        Opcode::Se(x, kk)
    } else if f == 0x4 {
        Opcode::Sne(x, kk)
    } else if f == 0x5 {
        if n == 0 {
            Opcode::Ser(x, y)
        } else {
            Opcode::Sys
        }
    } else if f == 0x6 {
        Opcode::Ld(x, kk)
    } else if f == 0x7 {
        Opcode::Add(x, kk)
    } else if f == 0x8 {
        if n == 0x0 {
            Opcode::Ldr(x, y)
        } else if n == 0x1 {
            Opcode::Or(x, y)
        } else if n == 0x2 {
            Opcode::And(x, y)
        } else if n == 0x3 {
            Opcode::Xor(x, y)
        } else if n == 0x4 {
            Opcode::Addr(x, y)
        } else if n == 0x5 {
            Opcode::Subr(x, y)
        } else if n == 0x6 {
            Opcode::Shr(x)
        } else if n == 0x7 {
            Opcode::Subn(x, y)
        } else if n == 0xE {
            Opcode::Shl(x)
        } else {
            Opcode::Sys
        }
    } else if f == 0x9 {
        if n == 0 {
            Opcode::Sner(x, y)
        } else {
            Opcode::Sys
        }
    } else if f == 0xA {
        Opcode::Ldi(nnn)
    } else if f == 0xB {
        Opcode::Jpr(nnn)
    } else if f == 0xC {
        Opcode::Rnd(x, kk)
    } else if f == 0xD {
        Opcode::Drw(x, y, n)
    } else if f == 0xE {
        if kk == 0x9E {
            Opcode::Skp(x)
        } else if kk == 0xA1 {
            Opcode::Sknp(x)
        } else {
            Opcode::Sys
        }
    } else {
        if kk == 0x07 {
            Opcode::LdDt(x)
        } else if kk == 0x0A {
            Opcode::LdK(x)
        } else if kk == 0x15 {
            Opcode::DtLd(x)
        } else if kk == 0x18 {
            Opcode::StLd(x)
        } else if kk == 0x1E {
            Opcode::AddI(x)
        } else if kk == 0x29 {
            Opcode::LdF(x)
        } else if kk == 0x33 {
            Opcode::LdB(x)
        } else if kk == 0x55 {
            Opcode::LdIR(x)
        } else if kk == 0x65 {
            Opcode::LdRI(x)
        } else {
            Opcode::Sys
        }
    }
}

/// Whether every register operand of `op` names one of the sixteen
/// registers and every sprite height is below sixteen.
pub open spec fn operands_in_range(op: Opcode) -> bool {
    match op {
        Opcode::Jp(a) | Opcode::Call(a) | Opcode::Ldi(a) | Opcode::Jpr(a) => a < 0x1000,
        Opcode::Se(x, _) | Opcode::Sne(x, _) | Opcode::Ld(x, _) | Opcode::Add(x, _) | Opcode::Rnd(
            x,
            _,
        ) => x < 16,
        Opcode::Ser(x, y) | Opcode::Ldr(x, y) | Opcode::Or(x, y) | Opcode::And(x, y) | Opcode::Xor(
            x,
            y,
        ) | Opcode::Addr(x, y) | Opcode::Subr(x, y) | Opcode::Subn(x, y) | Opcode::Sner(x, y) => x
            < 16 && y < 16,
        Opcode::Drw(x, y, n) => x < 16 && y < 16 && n < 16,
        Opcode::Shr(x) | Opcode::Shl(x) | Opcode::Skp(x) | Opcode::Sknp(x) | Opcode::LdDt(x)
        | Opcode::LdK(x) | Opcode::DtLd(x) | Opcode::StLd(x) | Opcode::AddI(x) | Opcode::LdF(x)
        | Opcode::LdB(x) | Opcode::LdIR(x) | Opcode::LdRI(x) => x < 16,
        _ => true,
    }
}

/// Every decoded operation has its operands in range.
pub proof fn lemma_decoded_in_range(w: u16)
    ensures
        operands_in_range(decoded(w)),
{
}

proof fn lemma_fields(w: u16)
    ensures
        (w >> 12u16) & 0xFu16 == w / 0x1000,
        (w >> 8u16) & 0xFu16 == (w / 0x100) % 0x10,
        (w >> 4u16) & 0xFu16 == (w / 0x10) % 0x10,
        w & 0xFu16 == w % 0x10,
        w & 0xFFu16 == w % 0x100,
        w & 0xFFFu16 == w % 0x1000,
{
    assert((w >> 12u16) & 0xFu16 == w / 0x1000) by (bit_vector);
    assert((w >> 8u16) & 0xFu16 == (w / 0x100) % 0x10) by (bit_vector);
    assert((w >> 4u16) & 0xFu16 == (w / 0x10) % 0x10) by (bit_vector);
    assert(w & 0xFu16 == w % 0x10) by (bit_vector);
    assert(w & 0xFFu16 == w % 0x100) by (bit_vector);
    assert(w & 0xFFFu16 == w % 0x1000) by (bit_vector);
}

/// Decodes one instruction word. Total: a word outside the instruction
/// table decodes to `Sys`, a no-op.
pub fn decode(w: u16) -> (op: Opcode)
    ensures
        op == decoded(w),
{
    proof {
        lemma_fields(w);
    }
    let f = (w >> 12) & 0xF;
    let x = ((w >> 8) & 0xF) as u8;
    let y = ((w >> 4) & 0xF) as u8;
    let n = (w & 0xF) as u8;
    let kk = (w & 0xFF) as u8;
    let nnn = w & 0xFFF;
    match f {
        0x0 => if w == 0x00E0 {
            Opcode::Cls
        } else if w == 0x00EE {
            Opcode::Ret
        } else {
            Opcode::Sys
        },
        0x1 => Opcode::Jp(nnn),
        0x2 => Opcode::Call(nnn),
        0x3 => Opcode::Se(x, kk),
        0x4 => Opcode::Sne(x, kk),
        0x5 => if n == 0 {
            Opcode::Ser(x, y)
        } else {
            Opcode::Sys
        },
        0x6 => Opcode::Ld(x, kk),
        0x7 => Opcode::Add(x, kk),
        0x8 => match n {
            0x0 => Opcode::Ldr(x, y),
            0x1 => Opcode::Or(x, y),
            0x2 => Opcode::And(x, y),
            0x3 => Opcode::Xor(x, y),
            0x4 => Opcode::Addr(x, y),
            0x5 => Opcode::Subr(x, y),
            0x6 => Opcode::Shr(x),
            0x7 => Opcode::Subn(x, y),
            0xE => Opcode::Shl(x),
            _ => Opcode::Sys,
        },
        0x9 => if n == 0 {
            Opcode::Sner(x, y)
        } else {
            Opcode::Sys
        },
        0xA => Opcode::Ldi(nnn),
        0xB => Opcode::Jpr(nnn),
        0xC => Opcode::Rnd(x, kk),
        0xD => Opcode::Drw(x, y, n),
        0xE => match kk {
            0x9E => Opcode::Skp(x),
            0xA1 => Opcode::Sknp(x),
            _ => Opcode::Sys,
        },
        _ => match kk {
            0x07 => Opcode::LdDt(x),
            0x0A => Opcode::LdK(x),
            0x15 => Opcode::DtLd(x),
            0x18 => Opcode::StLd(x),
            0x1E => Opcode::AddI(x),
            0x29 => Opcode::LdF(x),
            0x33 => Opcode::LdB(x),
            0x55 => Opcode::LdIR(x),
            0x65 => Opcode::LdRI(x),
            _ => Opcode::Sys,
        },
    }
}

} // verus!
