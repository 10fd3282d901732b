//! The 4096-byte address space, preloaded with the sixteen hexadecimal
//! digit sprite glyphs and loading programs at `0x200`.

use vstd::prelude::*;

verus! {

/// Size of the address space in bytes.
pub const MEM_SIZE: usize = 4096;

/// Address at which a loaded program begins; everything below is reserved.
pub const PROGRAM_START: u16 = 0x200;

/// Why a memory operation was refused.
#[derive(Clone, Copy, Debug, PartialEq, Eq, Structural)]
pub enum MemoryError {
    /// An access beginning at `addr` would have left `[0, MEM_SIZE)`.
    OutOfBounds { addr: u16 },
    /// A program of `len` bytes does not fit between `PROGRAM_START` and
    /// the end of memory.
    RomTooLarge { len: usize },
}

/// The font glyph table: sixteen 5-byte sprites, one per hexadecimal digit
/// in digit order, preloaded at the base of memory.
pub open spec fn font_set() -> Seq<u8> {
    seq![
        0xF0u8, 0x90, 0x90, 0x90, 0xF0,  // 0
        0x20, 0x60, 0x20, 0x20, 0x70,  // 1
        0xF0, 0x10, 0xF0, 0x80, 0xF0,  // 2
        0xF0, 0x10, 0xF0, 0x10, 0xF0,  // 3
        0x90, 0x90, 0xF0, 0x10, 0x10,  // 4
        0xF0, 0x80, 0xF0, 0x10, 0xF0,  // 5
        0xF0, 0x80, 0xF0, 0x90, 0xF0,  // 6
        0xF0, 0x10, 0x20, 0x40, 0x40,  // 7
        0xF0, 0x90, 0xF0, 0x90, 0xF0,  // 8
        0xF0, 0x90, 0xF0, 0x10, 0xF0,  // 9
        0xF0, 0x90, 0xF0, 0x90, 0x90,  // A
        0xE0, 0x90, 0xE0, 0x90, 0xE0,  // B
        0xF0, 0x80, 0x80, 0x80, 0xF0,  // C
        0xE0, 0x90, 0x90, 0x90, 0xE0,  // D
        0xF0, 0x80, 0xF0, 0x80, 0xF0,  // E
        0xF0, 0x80, 0xF0, 0x80, 0x80,  // F
    ]
}

/// Memory as it stands at machine construction: the font table at the base,
/// zero everywhere else.
pub open spec fn initial_memory() -> Seq<u8> {
    Seq::new(MEM_SIZE as nat, |j: int| if j < 80 { font_set()[j] } else { 0u8 })
}

/// `mem` with the bytes `vals` written starting at `at`, everything else
/// unchanged.
pub open spec fn overwritten(mem: Seq<u8>, at: int, vals: Seq<u8>) -> Seq<u8> {
    Seq::new(mem.len(), |j: int| if at <= j < at + vals.len() { vals[j - at] } else { mem[j] })
}

/// The fixed 4096-byte address space.
pub struct Memory {
    mem: Vec<u8>,
}

impl View for Memory {
    type V = Seq<u8>;

    closed spec fn view(&self) -> Seq<u8> {
        self.mem@
    }
}

impl Memory {
    /// The address space always spans exactly `MEM_SIZE` bytes.
    pub open spec fn wf(&self) -> bool {
        self@.len() == MEM_SIZE
    }

    /// Fresh memory: zeroed, with the font glyph table at the base.
    pub fn new() -> (r: Self)
        ensures
            r.wf(),
            r@ == initial_memory(),
    {
        let mut mem: Vec<u8> = Vec::new();
        while mem.len() < MEM_SIZE
            invariant
                mem@.len() <= MEM_SIZE,
                forall|j: int| 0 <= j < mem@.len() ==> mem@[j] == 0u8,
            decreases MEM_SIZE - mem@.len(),
        {
            mem.push(0);
        }
        let font: Vec<u8> = vec![
            0xF0u8, 0x90, 0x90, 0x90, 0xF0, 0x20, 0x60, 0x20, 0x20, 0x70, 0xF0, 0x10, 0xF0, 0x80,
            0xF0, 0xF0, 0x10, 0xF0, 0x10, 0xF0, 0x90, 0x90, 0xF0, 0x10, 0x10, 0xF0, 0x80, 0xF0,
            0x10, 0xF0, 0xF0, 0x80, 0xF0, 0x90, 0xF0, 0xF0, 0x10, 0x20, 0x40, 0x40, 0xF0, 0x90,
            0xF0, 0x90, 0xF0, 0xF0, 0x90, 0xF0, 0x10, 0xF0, 0xF0, 0x90, 0xF0, 0x90, 0x90, 0xE0,
            0x90, 0xE0, 0x90, 0xE0, 0xF0, 0x80, 0x80, 0x80, 0xF0, 0xE0, 0x90, 0x90, 0x90, 0xE0,
            0xF0, 0x80, 0xF0, 0x80, 0xF0, 0xF0, 0x80, 0xF0, 0x80, 0x80,
        ];
        proof {
            assert(font@ =~= font_set());
        }
        let mut i: usize = 0;
        while i < 80
            invariant
                i <= 80,
                font@ == font_set(),
                mem@.len() == MEM_SIZE,
                forall|j: int| 0 <= j < i ==> mem@[j] == font_set()[j],
                forall|j: int| i <= j < MEM_SIZE ==> mem@[j] == 0u8,
            decreases 80 - i,
        {
            mem[i] = font[i];
            i += 1;
        }
        let r = Memory { mem };
        proof {
            assert(r@ =~= initial_memory());
        }
        r
    }

    /// Writes one byte; refused when `address` is out of range, in which
    /// case nothing changes.
    pub fn write_byte(&mut self, address: u16, value: u8) -> (r: Result<(), MemoryError>)
        requires
            old(self).wf(),
        ensures
            final(self).wf(),
            address < MEM_SIZE ==> r == Ok::<(), MemoryError>(())
                && final(self)@ == old(self)@.update(address as int, value),
            address >= MEM_SIZE ==> r == Err::<(), MemoryError>(
                MemoryError::OutOfBounds { addr: address },
            ) && final(self)@ == old(self)@,
    {
        if (address as usize) < MEM_SIZE {
            self.mem[address as usize] = value;
            Ok(())
        } else {
            Err(MemoryError::OutOfBounds { addr: address })
        }
    }

    /// Reads one byte; refused when `address` is out of range.
    pub fn read_byte(&self, address: u16) -> (r: Result<u8, MemoryError>)
        requires
            self.wf(),
        ensures
            address < MEM_SIZE ==> r == Ok::<u8, MemoryError>(self@[address as int]),
            address >= MEM_SIZE ==> r == Err::<u8, MemoryError>(
                MemoryError::OutOfBounds { addr: address },
            ),
    {
        if (address as usize) < MEM_SIZE {
            Ok(self.mem[address as usize])
        } else {
            Err(MemoryError::OutOfBounds { addr: address })
        }
    }

    /// A copy of the `n` bytes starting at `i`; refused when the range
    /// `[i, i + n)` does not lie inside memory. The error names the start
    /// of the refused access.
    pub fn get_slice(&self, i: u16, n: u16) -> (r: Result<Vec<u8>, MemoryError>)
        requires
            self.wf(),
        ensures
            i as int + n as int <= MEM_SIZE ==> (r matches Ok(bytes) && bytes@ == self@.subrange(
                i as int,
                i as int + n as int,
            )),
            i as int + n as int > MEM_SIZE ==> r == Err::<Vec<u8>, MemoryError>(
                MemoryError::OutOfBounds { addr: i },
            ),
    {
        if i as usize + n as usize <= MEM_SIZE {
            let mut bytes: Vec<u8> = Vec::new();
            let mut k: usize = 0;
            while k < n as usize
                invariant
                    self.wf(),
                    k <= n,
                    i as int + n as int <= MEM_SIZE,
                    bytes@.len() == k,
                    forall|j: int| 0 <= j < k ==> bytes@[j] == self@[i as int + j],
                decreases n as int - k,
            {
                bytes.push(self.mem[i as usize + k]);
                k += 1;
            }
            proof {
                assert(bytes@ =~= self@.subrange(i as int, i as int + n as int));
            }
            Ok(bytes)
        } else {
            Err(MemoryError::OutOfBounds { addr: i })
        }
    }

    /// Copies a program into memory starting at `PROGRAM_START`.
    ///
    /// Refused when the program would run past the end of memory; nothing
    /// is written in that case, not even a prefix.
    pub fn load_rom(&mut self, data: &Vec<u8>) -> (r: Result<(), MemoryError>)
        requires
            old(self).wf(),
        ensures
            final(self).wf(),
            data@.len() <= MEM_SIZE - PROGRAM_START ==> r == Ok::<(), MemoryError>(())
                && final(self)@ == overwritten(old(self)@, PROGRAM_START as int, data@),
            data@.len() > MEM_SIZE - PROGRAM_START ==> r == Err::<(), MemoryError>(
                MemoryError::RomTooLarge { len: data@.len() as usize },
            ) && final(self)@ == old(self)@,
    {
        if data.len() > MEM_SIZE - PROGRAM_START as usize {
            return Err(MemoryError::RomTooLarge { len: data.len() });
        }
        let mut k: usize = 0;
        while k < data.len()
            invariant
                self.wf(),
                k <= data@.len(),
                data@.len() <= MEM_SIZE - PROGRAM_START,
                forall|j: int|
                    0 <= j < MEM_SIZE && !(PROGRAM_START <= j < PROGRAM_START + k) ==> self@[j]
                        == old(self)@[j],
                forall|j: int| 0 <= j < k ==> self@[PROGRAM_START + j] == data@[j],
            decreases data@.len() - k,
        {
            self.mem[PROGRAM_START as usize + k] = data[k];
            k += 1;
        }
        proof {
            assert(self@ =~= overwritten(old(self)@, PROGRAM_START as int, data@));
        }
        Ok(())
    }
}

} // verus!
