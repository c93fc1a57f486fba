//! The table through which the host finds a plugin's entry points.
//!
//! The host reads the table as 44 bytes at fixed offsets: a four-byte tag,
//! the interface version, the platform, seven reserved bytes, and seven
//! four-byte slots that hold the addresses of the entry points. The host is a
//! 32-bit little-endian machine, so an address is carried as a `u32` and
//! written least significant byte first.

use vstd::prelude::*;

use crate::oscapi::{Platform, UserOsc};

verus! {

/// The version of the host interface that the table announces.
pub const API_VERSION: u32 = 0x01_01_00;

/// The size of the table in bytes.
pub const HOOK_TABLE_SIZE: usize = 44;

/// The addresses of the seven functions that forward the host's calls.
#[derive(Clone, Copy, Debug)]
pub struct HookSlots {
    pub func_entry: u32,
    pub func_cycle: u32,
    pub func_on: u32,
    pub func_off: u32,
    pub func_mute: u32,
    pub func_value: u32,
    pub func_param: u32,
}

/// The table, field by field in the order of its layout.
#[derive(Clone, Copy, Debug)]
pub struct UserOscHookTable {
    pub magic: [u8; 4],
    pub api: u32,
    pub platform: u8,
    pub reserved0: [u8; 7],
    pub func_entry: u32,
    pub func_cycle: u32,
    pub func_on: u32,
    pub func_off: u32,
    pub func_mute: u32,
    pub func_value: u32,
    pub func_param: u32,
}

/// The tag that opens the table: the letters U, O, S, C.
pub open spec fn magic() -> Seq<u8> {
    seq![0x55u8, 0x4fu8, 0x53u8, 0x43u8]
}

/// The four bytes of `x`, least significant first.
pub open spec fn le_bytes(x: u32) -> Seq<u8> {
    seq![
        (x % 0x100) as u8,
        (x / 0x100 % 0x100) as u8,
        (x / 0x1_0000 % 0x100) as u8,
        (x / 0x100_0000) as u8,
    ]
}

impl UserOscHookTable {
    /// The table is the one that a plugin for `platform` with the entry points `slots` shows.
    pub open spec fn is_for(self, platform: Platform, slots: HookSlots) -> bool {
        &&& self.magic@ == magic()
        &&& self.api == API_VERSION
        &&& self.platform == platform.byte()
        &&& self.reserved0@ == Seq::new(7, |i: int| 0u8)
        &&& self.func_entry == slots.func_entry
        &&& self.func_cycle == slots.func_cycle
        &&& self.func_on == slots.func_on
        &&& self.func_off == slots.func_off
        &&& self.func_mute == slots.func_mute
        &&& self.func_value == slots.func_value
        &&& self.func_param == slots.func_param
    }

    /// The bytes that the host reads.
    pub open spec fn layout(self) -> Seq<u8> {
        self.magic@ + le_bytes(self.api) + seq![self.platform] + self.reserved0@ + le_bytes(
            self.func_entry,
        ) + le_bytes(self.func_cycle) + le_bytes(self.func_on) + le_bytes(self.func_off)
            + le_bytes(self.func_mute) + le_bytes(self.func_value) + le_bytes(self.func_param)
    }

    /// Assembles the table of a plugin for `platform`.
    pub fn new(platform: Platform, slots: HookSlots) -> (table: Self)
        ensures
            table.is_for(platform, slots),
    {
        let table = UserOscHookTable {
            magic: [0x55, 0x4f, 0x53, 0x43],
            api: API_VERSION,
            platform: platform.to_byte(),
            reserved0: [0, 0, 0, 0, 0, 0, 0],
            func_entry: slots.func_entry,
            func_cycle: slots.func_cycle,
            func_on: slots.func_on,
            func_off: slots.func_off,
            func_mute: slots.func_mute,
            func_value: slots.func_value,
            func_param: slots.func_param,
        };
        assert(table.magic@ =~= magic());
        assert(table.reserved0@ =~= Seq::new(7, |i: int| 0u8));
        table
    }

    /// Writes the table as the host reads it.
    pub fn to_bytes(&self) -> (bytes: Vec<u8>)
        ensures
            bytes@ == self.layout(),
    {
        let mut bytes: Vec<u8> = Vec::with_capacity(HOOK_TABLE_SIZE);
        let mut i: usize = 0;
        while i < 4
            invariant
                i <= 4,
                bytes@ == self.magic@.subrange(0, i as int),
            decreases 4 - i,
        {
            bytes.push(self.magic[i]);
            i += 1;
        }
        assert(bytes@ == self.magic@);
        push_le_bytes(&mut bytes, self.api);
        bytes.push(self.platform);
        let ghost head = bytes@;
        let mut i: usize = 0;
        while i < 7
            invariant
                i <= 7,
                bytes@ == head + self.reserved0@.subrange(0, i as int),
            decreases 7 - i,
        {
            bytes.push(self.reserved0[i]);
            i += 1;
        }
        assert(bytes@ == head + self.reserved0@);
        push_le_bytes(&mut bytes, self.func_entry);
        push_le_bytes(&mut bytes, self.func_cycle);
        push_le_bytes(&mut bytes, self.func_on);
        push_le_bytes(&mut bytes, self.func_off);
        push_le_bytes(&mut bytes, self.func_mute);
        push_le_bytes(&mut bytes, self.func_value);
        push_le_bytes(&mut bytes, self.func_param);
        bytes
    }
}

/// Appends the four bytes of `x`, least significant first.
fn push_le_bytes(bytes: &mut Vec<u8>, x: u32)
    ensures
        final(bytes)@ == old(bytes)@ + le_bytes(x),
{
    assert(x & 0xff == x % 0x100) by (bit_vector);
    assert((x >> 8) & 0xff == x / 0x100 % 0x100) by (bit_vector);
    assert((x >> 16) & 0xff == x / 0x1_0000 % 0x100) by (bit_vector);
    assert(x >> 24 == x / 0x100_0000) by (bit_vector);
    bytes.push((x & 0xff) as u8);
    bytes.push(((x >> 8) & 0xff) as u8);
    bytes.push(((x >> 16) & 0xff) as u8);
    bytes.push((x >> 24) as u8);
}

/// The layout of the table of any platform: 44 bytes, the tag at offset 0,
/// the version at 4, the platform's byte at 8, zeros from 9 to 15, and the
/// seven slots from 16 on, four bytes each, in the order entry, cycle, note
/// on, note off, mute, value, param.
pub proof fn lemma_hook_table_layout(table: UserOscHookTable, platform: Platform, slots: HookSlots)
    requires
        table.is_for(platform, slots),
    ensures
        table.layout().len() == HOOK_TABLE_SIZE,
        table.layout().subrange(0, 4) == seq![0x55u8, 0x4fu8, 0x53u8, 0x43u8],
        table.layout().subrange(4, 8) == seq![0x00u8, 0x01u8, 0x01u8, 0x00u8],
        table.layout()[8] == platform.byte(),
        1 <= table.layout()[8] <= 3,
        forall|i: int| 9 <= i < 16 ==> table.layout()[i] == 0,
        table.layout().subrange(16, 20) == le_bytes(slots.func_entry),
        table.layout().subrange(20, 24) == le_bytes(slots.func_cycle),
        table.layout().subrange(24, 28) == le_bytes(slots.func_on),
        table.layout().subrange(28, 32) == le_bytes(slots.func_off),
        table.layout().subrange(32, 36) == le_bytes(slots.func_mute),
        table.layout().subrange(36, 40) == le_bytes(slots.func_value),
        table.layout().subrange(40, 44) == le_bytes(slots.func_param),
{
}

/// Every oscillator has a hook table.
pub trait UserOscHooks {
    /// The family that the table names.
    spec fn table_platform() -> Platform;

    /// The table of the oscillator, with the entry points `slots`.
    fn hook_table(slots: HookSlots) -> (table: UserOscHookTable)
        ensures
            table.is_for(Self::table_platform(), slots),
    ;
}

impl<T: UserOsc> UserOscHooks for T {
    open spec fn table_platform() -> Platform {
        T::PLATFORM
    }

    fn hook_table(slots: HookSlots) -> (table: UserOscHookTable) {
        UserOscHookTable::new(T::PLATFORM, slots)
    }
}

} // verus!
