//! Block registry: block definitions with sequential numeric IDs (0 is
//! always air), hex color parsing and palette texture generation.
use vstd::prelude::*;
use vstd::string::StringSliceAdditionalSpecFns;

verus! {

/// Value of an ASCII hex digit (`0-9`, `a-f`, `A-F`).
pub open spec fn hex_value(b: u8) -> Option<u8> {
    if 48 <= b <= 57 {
        Some((b - 48) as u8)
    } else if 97 <= b <= 102 {
        Some((b - 87) as u8)
    } else if 65 <= b <= 70 {
        Some((b - 55) as u8)
    } else {
        None
    }
}

/// A two-byte string read as a base-16 `u8` the way `u8::from_str_radix`
/// reads it: an optional leading `+` followed by hex digits.
pub open spec fn radix16_pair(b0: u8, b1: u8) -> Option<u8> {
    if b0 == 43 {
        hex_value(b1)
    } else {
        match (hex_value(b0), hex_value(b1)) {
            (Some(h), Some(l)) => Some((h * 16 + l) as u8),
            _ => None,
        }
    }
}

/// The bytes after one optional leading `#`.
pub open spec fn hex_digits(bytes: Seq<u8>) -> Seq<u8> {
    if bytes.len() > 0 && bytes[0] == 35 {
        bytes.drop_first()
    } else {
        bytes
    }
}

/// Whether the string is as long as a color code: 6 (`RRGGBB`) or 8
/// (`RRGGBBAA`) bytes once the `#` is removed.
pub open spec fn hex_color_sized(bytes: Seq<u8>) -> bool {
    hex_digits(bytes).len() == 6 || hex_digits(bytes).len() == 8
}

/// Whether byte offset `i` of `h` starts a character (or is its end), by
/// UTF-8 encoding: it is not a continuation byte.
pub open spec fn starts_char(h: Seq<u8>, i: int) -> bool {
    i == 0 || i == h.len() || (0 <= i < h.len() && (h[i] < 0x80 || h[i] >= 0xC0))
}

/// Whether the byte ranges `0..2`, `2..4`, `4..6` of the color digits can be
/// sliced out: each offset 2, 4, 6 starts a character.
pub open spec fn hex_color_sliceable(bytes: Seq<u8>) -> bool {
    hex_color_sized(bytes) ==> {
        let h = hex_digits(bytes);
        starts_char(h, 2) && starts_char(h, 4) && starts_char(h, 6)
    }
}

/// Channel `c` (0 red, 1 green, 2 blue) of the color parsed from `bytes`:
/// magenta when the length is wrong, and per channel 255, 0, 255 when its
/// digits do not parse.
pub open spec fn spec_hex_channel(bytes: Seq<u8>, c: int) -> u8 {
    let h = hex_digits(bytes);
    let fallback: u8 = if c == 1 {
        0
    } else {
        255
    };
    if !hex_color_sized(bytes) {
        fallback
    } else {
        match radix16_pair(h[2 * c], h[2 * c + 1]) {
            Some(v) => v,
            None => fallback,
        }
    }
}

fn hex_value_exec(b: u8) -> (r: Option<u8>)
    ensures
        r == hex_value(b),
{
    if 48 <= b && b <= 57 {
        Some(b - 48)
    } else if 97 <= b && b <= 102 {
        Some(b - 87)
    } else if 65 <= b && b <= 70 {
        Some(b - 55)
    } else {
        None
    }
}

fn radix16_pair_exec(b0: u8, b1: u8) -> (r: Option<u8>)
    ensures
        r == radix16_pair(b0, b1),
{
    if b0 == 43 {
        hex_value_exec(b1)
    } else {
        match (hex_value_exec(b0), hex_value_exec(b1)) {
            (Some(h), Some(l)) => Some(h * 16 + l),
            _ => None,
        }
    }
}

/// Parse `#RRGGBB` or `#RRGGBBAA` (the `#` is optional, the alpha ignored)
/// into `[R, G, B]`. A string of another length gives magenta; a channel
/// whose digits do not parse gives 255 for red and blue, 0 for green.
pub fn parse_hex_color(s: &str) -> (r: [u8; 3])
    requires
        hex_color_sliceable(s.spec_bytes()),
    ensures
        r[0] == spec_hex_channel(s.spec_bytes(), 0),
        r[1] == spec_hex_channel(s.spec_bytes(), 1),
        r[2] == spec_hex_channel(s.spec_bytes(), 2),
{
    let bytes = s.as_bytes();
    let start: usize = if bytes.len() > 0 && bytes[0] == 35 {
        1
    } else {
        0
    };
    let n = bytes.len() - start;
    assert(hex_digits(bytes@) =~= bytes@.subrange(start as int, bytes@.len() as int));
    if n != 6 && n != 8 {
        return [255, 0, 255];
    }
    let r = match radix16_pair_exec(bytes[start], bytes[start + 1]) {
        Some(v) => v,
        None => 255,
    };
    let g = match radix16_pair_exec(bytes[start + 2], bytes[start + 3]) {
        Some(v) => v,
        None => 0,
    };
    let b = match radix16_pair_exec(bytes[start + 4], bytes[start + 5]) {
        Some(v) => v,
        None => 255,
    };
    [r, g, b]
}


/// A block definition. The material properties are the bytes the palette
/// texture stores: each a value in `0.0..=1.0` scaled to `0..=255`.
#[derive(Clone, Debug)]
pub struct BlockDef {
    /// Unique string ID, such as `game:stone`.
    pub id: String,
    /// Display name.
    pub name: String,
    /// sRGB color as `#RRGGBB` or `#RRGGBBAA`.
    pub color: String,
    pub roughness: u8,
    pub emission: u8,
    pub noise: u8,
    pub metallic: u8,
}

/// Why a block definition was refused.
#[derive(Debug)]
pub enum RegistryError {
    /// A block with this ID is already registered.
    DuplicateId(String),
}

/// Whether some definition of `defs` has ID `id`.
pub open spec fn has_id(defs: Seq<BlockDef>, id: Seq<char>) -> bool {
    exists|i: int| 0 <= i < defs.len() && (#[trigger] defs[i]).id@ == id
}

/// Registry state after registering the first `n` definitions of `new` in
/// order onto `defs`, stopping at the first duplicate ID, whose ID is then
/// reported.
pub open spec fn load_prefix(defs: Seq<BlockDef>, new: Seq<BlockDef>, n: int) -> (Seq<BlockDef>, Option<Seq<char>>)
    decreases n,
{
    if n <= 0 {
        (defs, None)
    } else {
        let prev = load_prefix(defs, new, n - 1);
        if prev.1 is Some {
            prev
        } else if has_id(prev.0, new[n - 1].id@) {
            (prev.0, Some(new[n - 1].id@))
        } else {
            (prev.0.push(new[n - 1]), None)
        }
    }
}

/// Registry mapping string IDs to sequential indices; index 0 is air.
pub struct BlockRegistry {
    blocks: Vec<BlockDef>,
}

impl BlockRegistry {
    /// Registered definitions; a block's numeric ID is its position.
    pub closed spec fn defs(&self) -> Seq<BlockDef> {
        self.blocks@
    }

    /// At least air is registered, and no two blocks share an ID.
    pub closed spec fn wf(&self) -> bool {
        &&& self.blocks@.len() >= 1
        &&& forall|i: int, j: int|
            0 <= i < j < self.blocks@.len() ==> (#[trigger] self.blocks@[i]).id@ != (#[trigger] self.blocks@[j]).id@
    }

    /// A registry holding only air (`engine:air`, named `Air`, color
    /// `#000000`, all material properties zero) at index 0.
    pub fn new() -> (r: Self)
        ensures
            r.wf(),
            r.defs().len() == 1,
            r.defs()[0].id@ == "engine:air"@,
            r.defs()[0].name@ == "Air"@,
            r.defs()[0].color@ == "#000000"@,
            r.defs()[0].roughness == 0,
            r.defs()[0].emission == 0,
            r.defs()[0].noise == 0,
            r.defs()[0].metallic == 0,
    {
        let air = BlockDef {
            id: "engine:air".to_owned(),
            name: "Air".to_owned(),
            color: "#000000".to_owned(),
            roughness: 0,
            emission: 0,
            noise: 0,
            metallic: 0,
        };
        let mut blocks: Vec<BlockDef> = Vec::new();
        blocks.push(air);
        BlockRegistry { blocks }
    }

    /// Position of the block with ID `id`, if registered.
    fn find(&self, id: &String) -> (r: Option<usize>)
        ensures
            r matches Some(i) ==> i < self.defs().len() && self.defs()[i as int].id@ == id@,
            r is None ==> !has_id(self.defs(), id@),
    {
        let mut i: usize = 0;
        while i < self.blocks.len()
            invariant
                i <= self.blocks@.len(),
                forall|k: int| 0 <= k < i ==> (#[trigger] self.blocks@[k]).id@ != id@,
            decreases self.blocks@.len() - i,
        {
            if self.blocks[i].id == *id {
                return Some(i);
            }
            i = i + 1;
        }
        None
    }

    /// Register `def` under the next index. Refused, with nothing changed,
    /// when its ID is already registered.
    pub fn register_block(&mut self, def: BlockDef) -> (r: Result<u16, RegistryError>)
        requires
            old(self).wf(),
        ensures
            final(self).wf(),
            r is Err <==> has_id(old(self).defs(), def.id@),
            r matches Err(RegistryError::DuplicateId(id)) ==> id@ == def.id@ && final(self).defs() == old(
                self,
            ).defs(),
            r matches Ok(idx) ==> idx == old(self).defs().len() as u16 && final(self).defs() == old(
                self,
            ).defs().push(def),
    {
        match self.find(&def.id) {
            Some(_) => {
                return Err(RegistryError::DuplicateId(def.id));
            },
            None => {},
        }
        let idx = self.blocks.len() as u16;
        self.blocks.push(def);
        Ok(idx)
    }

    /// Register each definition of `defs` in order, stopping at the first
    /// whose ID is already registered (those before it stay registered).
    pub fn load_blocks(&mut self, defs: Vec<BlockDef>) -> (r: Result<(), RegistryError>)
        requires
            old(self).wf(),
        ensures
            final(self).wf(),
            ({
                let l = load_prefix(old(self).defs(), defs@, defs@.len() as int);
                &&& final(self).defs() == l.0
                &&& r is Err <==> l.1 is Some
                &&& r matches Err(RegistryError::DuplicateId(id)) ==> l.1 == Some(id@)
            }),
    {
        let ghost all = defs@;
        let total = defs.len();
        let mut pool = defs;
        let mut rest: Vec<BlockDef> = Vec::new();
        // Reverse so that popping yields the definitions in the order given.
        while pool.len() > 0
            invariant
                pool@ + rest@.reverse() == all,
            decreases pool@.len(),
        {
            let d = pool.pop().unwrap();
            rest.push(d);
            assert(pool@ + rest@.reverse() =~= all);
        }
        assert(rest@.reverse() =~= all);
        assert(all.len() == total);
        let mut n: usize = 0;
        while rest.len() > 0
            invariant
                self.wf(),
                n + rest@.len() == all.len(),
                all.len() <= usize::MAX,
                all == defs@,
                forall|k: int| 0 <= k < rest@.len() ==> #[trigger] rest@[k] == all[all.len() - 1 - k],
                load_prefix(old(self).defs(), all, n as int) == (self.defs(), None::<Seq<char>>),
            decreases rest@.len(),
        {
            let d = rest.pop().unwrap();
            assert(d == all[n as int]);
            let ghost before = self.defs();
            match self.register_block(d) {
                Ok(_) => {},
                Err(e) => {
                    proof {
                        assert(has_id(before, all[n as int].id@));
                        assert(load_prefix(old(self).defs(), all, n + 1) == (before, Some(all[n as int].id@)));
                        assert(self.defs() == before);
                        lemma_load_prefix_stops(old(self).defs(), all, n + 1, all.len() as int);
                        assert(load_prefix(old(self).defs(), all, all.len() as int) == (before, Some(all[n as int].id@)));
                        assert(e matches RegistryError::DuplicateId(id) && id@ == all[n as int].id@);
                    }
                    return Err(e);
                },
            }
            n = n + 1;
        }
        Ok(())
    }
}

/// A block registered under index `idx` is what a lookup by its ID finds
/// (no other index carries that ID) and what a lookup by `idx` returns.
pub proof fn lemma_register_then_lookup(before: BlockRegistry, after: BlockRegistry, def: BlockDef, idx: u16)
    requires
        before.wf(),
        after.wf(),
        after.defs() == before.defs().push(def),
        idx as int == before.defs().len(),
    ensures
        has_id(after.defs(), def.id@),
        after.defs()[idx as int] == def,
        forall|i: int| 0 <= i < after.defs().len() && (#[trigger] after.defs()[i]).id@ == def.id@ ==> i == idx,
{
    assert(after.defs()[idx as int] == def);
    assert forall|i: int| 0 <= i < after.defs().len() && (#[trigger] after.defs()[i]).id@ == def.id@ implies i == idx by {
        if i != idx as int {
            assert(i < idx);
            assert(after.defs()[i].id@ != after.defs()[idx as int].id@);
        }
    }
}

/// Loading keeps every block registered before at its index; when no
/// duplicate stops it, the new definitions follow in order, the `k`-th at
/// index `N + k` for `N` blocks before; a load that stops reports an ID of
/// the new definitions.
pub proof fn lemma_load_keeps_and_appends(defs: Seq<BlockDef>, new: Seq<BlockDef>, n: int)
    requires
        0 <= n <= new.len(),
    ensures
        ({
            let l = load_prefix(defs, new, n);
            &&& l.0.len() >= defs.len()
            &&& l.0.subrange(0, defs.len() as int) == defs
            &&& l.1 is None ==> l.0 == defs + new.take(n)
            &&& l.1 matches Some(id) ==> exists|k: int| 0 <= k < n && #[trigger] new[k].id@ == id
        }),
    decreases n,
{
    if n > 0 {
        lemma_load_keeps_and_appends(defs, new, n - 1);
        let prev = load_prefix(defs, new, n - 1);
        if prev.1 is None && !has_id(prev.0, new[n - 1].id@) {
            assert(prev.0.push(new[n - 1]) =~= defs + new.take(n));
            assert(prev.0.push(new[n - 1]).subrange(0, defs.len() as int) =~= prev.0.subrange(0, defs.len() as int));
        }
        if prev.1 is None && has_id(prev.0, new[n - 1].id@) {
            assert(new[n - 1].id@ == new[n - 1].id@);
        }
        if let Some(id) = prev.1 {
            let k = choose|k: int| 0 <= k < n - 1 && #[trigger] new[k].id@ == id;
            assert(new[k].id@ == id);
        }
    } else {
        assert(new.take(0) =~= Seq::<BlockDef>::empty());
        assert(defs + Seq::<BlockDef>::empty() =~= defs);
        assert(defs.subrange(0, defs.len() as int) =~= defs);
    }
}

impl BlockRegistry {
    /// No two registered blocks share an ID.
    pub proof fn lemma_ids_distinct(&self)
        requires
            self.wf(),
        ensures
            forall|i: int, j: int|
                0 <= i < self.defs().len() && 0 <= j < self.defs().len() && i != j ==> (#[trigger] self.defs()[i]).id@
                    != (#[trigger] self.defs()[j]).id@,
    {
        assert forall|i: int, j: int|
            0 <= i < self.defs().len() && 0 <= j < self.defs().len() && i != j implies (#[trigger] self.defs()[i]).id@
                != (#[trigger] self.defs()[j]).id@ by {
            if i > j {
                assert(self.blocks@[j].id@ != self.blocks@[i].id@);
            }
        }
    }
}

/// Whether one of the first `n` new definitions has an ID that is already
/// registered in `defs` or repeats the ID of an earlier new definition.
pub open spec fn has_duplicate(defs: Seq<BlockDef>, new: Seq<BlockDef>, n: int) -> bool {
    exists|k: int|
        0 <= k < n && (has_id(defs, #[trigger] new[k].id@) || exists|j: int| 0 <= j < k && new[j].id@ == new[k].id@)
}

/// A load stops, reporting an error, exactly when a new definition's ID is
/// already registered or repeats an earlier one.
pub proof fn lemma_load_stops_iff_duplicate(defs: Seq<BlockDef>, new: Seq<BlockDef>, n: int)
    requires
        0 <= n <= new.len(),
    ensures
        load_prefix(defs, new, n).1 is Some <==> has_duplicate(defs, new, n),
    decreases n,
{
    if n > 0 {
        lemma_load_stops_iff_duplicate(defs, new, n - 1);
        lemma_load_keeps_and_appends(defs, new, n - 1);
        let prev = load_prefix(defs, new, n - 1);
        let c = new[n - 1];
        if has_duplicate(defs, new, n - 1) {
            let k = choose|k: int|
                0 <= k < n - 1 && (has_id(defs, #[trigger] new[k].id@) || exists|j: int|
                    0 <= j < k && new[j].id@ == new[k].id@);
            assert(0 <= k < n && (has_id(defs, new[k].id@) || exists|j: int| 0 <= j < k && new[j].id@ == new[k].id@));
        } else {
            assert(prev.0 == defs + new.take(n - 1));
            if has_id(prev.0, c.id@) {
                let i = choose|i: int| 0 <= i < prev.0.len() && (#[trigger] prev.0[i]).id@ == c.id@;
                if i < defs.len() {
                    assert(prev.0[i] == defs[i]);
                    assert(has_id(defs, new[n - 1].id@));
                } else {
                    assert(prev.0[i] == new[i - defs.len()]);
                    assert(0 <= i - defs.len() < n - 1 && new[i - defs.len()].id@ == new[n - 1].id@);
                }
                assert(has_duplicate(defs, new, n));
            } else {
                assert(!has_duplicate(defs, new, n)) by {
                    if has_duplicate(defs, new, n) {
                        let k = choose|k: int|
                            0 <= k < n && (has_id(defs, #[trigger] new[k].id@) || exists|j: int|
                                0 <= j < k && new[j].id@ == new[k].id@);
                        if k < n - 1 {
                            assert(has_duplicate(defs, new, n - 1));
                        } else {
                            if has_id(defs, c.id@) {
                                let i = choose|i: int| 0 <= i < defs.len() && (#[trigger] defs[i]).id@ == c.id@;
                                assert(prev.0[i] == defs[i]);
                                assert(has_id(prev.0, c.id@));
                            } else {
                                let j = choose|j: int| 0 <= j < k && new[j].id@ == new[k].id@;
                                assert(prev.0[defs.len() + j] == new[j]);
                                assert(has_id(prev.0, c.id@));
                            }
                        }
                    }
                }
            }
        }
    }
}

/// Once a load has stopped at a duplicate, later definitions change nothing.
proof fn lemma_load_prefix_stops(defs: Seq<BlockDef>, new: Seq<BlockDef>, n: int, m: int)
    requires
        0 <= n <= m,
        load_prefix(defs, new, n).1 is Some,
    ensures
        load_prefix(defs, new, m) == load_prefix(defs, new, n),
    decreases m - n,
{
    if m > n {
        lemma_load_prefix_stops(defs, new, n, m - 1);
    }
}


/// Bytes per palette layer: 256 x 256 RGBA8 texels.
pub const LAYER_SIZE: usize = 262144;

/// Byte `j` of the palette texture for `defs`. Layer 0 holds, per block
/// index, the block's color with alpha 255 (air transparent black), and
/// magenta for unused slots; layer 1 holds the block's roughness, emission,
/// noise and metallic bytes, zero for unused slots.
pub open spec fn spec_texture_byte(defs: Seq<BlockDef>, j: int) -> u8 {
    if j < LAYER_SIZE {
        let p = j / 4;
        let c = j % 4;
        if p == 0 {
            0
        } else if p < defs.len() {
            if c == 3 {
                255
            } else {
                spec_hex_channel(vstd::utf8::encode_utf8(defs[p].color@), c)
            }
        } else if c == 1 {
            0
        } else {
            255
        }
    } else {
        let p = (j - LAYER_SIZE) / 4;
        let c = (j - LAYER_SIZE) % 4;
        if p < defs.len() {
            if c == 0 {
                defs[p].roughness
            } else if c == 1 {
                defs[p].emission
            } else if c == 2 {
                defs[p].noise
            } else {
                defs[p].metallic
            }
        } else {
            0
        }
    }
}

/// Index of channel `c` of the texel of block index `p` in `layer` of the
/// palette texture.
pub open spec fn texel_byte(layer: int, p: int, c: int) -> int {
    layer * LAYER_SIZE + 4 * p + c
}

/// Layout of the palette texture, one texel per block index below 65536.
/// Layer 1 holds each registered block's roughness, emission, noise and
/// metallic bytes in that order, and zeros past the registered blocks.
/// Layer 0 holds transparent black for air, each other registered block's
/// color channels with alpha 255, and opaque magenta past the registered
/// blocks.
pub proof fn lemma_palette_layout(defs: Seq<BlockDef>, p: int)
    requires
        0 <= p < 65536,
    ensures
        p < defs.len() ==> {
            &&& spec_texture_byte(defs, texel_byte(1, p, 0)) == defs[p].roughness
            &&& spec_texture_byte(defs, texel_byte(1, p, 1)) == defs[p].emission
            &&& spec_texture_byte(defs, texel_byte(1, p, 2)) == defs[p].noise
            &&& spec_texture_byte(defs, texel_byte(1, p, 3)) == defs[p].metallic
        },
        p >= defs.len() ==> forall|c: int| 0 <= c < 4 ==> spec_texture_byte(defs, #[trigger] texel_byte(1, p, c)) == 0,
        p == 0 ==> forall|c: int| 0 <= c < 4 ==> spec_texture_byte(defs, #[trigger] texel_byte(0, p, c)) == 0,
        0 < p < defs.len() ==> {
            &&& forall|c: int|
                0 <= c < 3 ==> spec_texture_byte(defs, #[trigger] texel_byte(0, p, c)) == spec_hex_channel(
                    vstd::utf8::encode_utf8(defs[p].color@),
                    c,
                )
            &&& spec_texture_byte(defs, texel_byte(0, p, 3)) == 255
        },
        0 < p && p >= defs.len() ==> {
            &&& spec_texture_byte(defs, texel_byte(0, p, 0)) == 255
            &&& spec_texture_byte(defs, texel_byte(0, p, 1)) == 0
            &&& spec_texture_byte(defs, texel_byte(0, p, 2)) == 255
            &&& spec_texture_byte(defs, texel_byte(0, p, 3)) == 255
        },
{
    assert forall|layer: int, c: int| 0 <= layer < 2 && 0 <= c < 4 implies {
        &&& (texel_byte(layer, p, c) - layer * LAYER_SIZE) / 4 == p
        &&& (texel_byte(layer, p, c) - layer * LAYER_SIZE) % 4 == c
    } by {
        vstd::arithmetic::div_mod::lemma_fundamental_div_mod_converse(4 * p + c, 4, p, c);
    }
    assert forall|c: int| 0 <= c < 4 implies texel_byte(0, p, c) / 4 == p && texel_byte(0, p, c) % 4 == c by {
        vstd::arithmetic::div_mod::lemma_fundamental_div_mod_converse(4 * p + c, 4, p, c);
    }
}

impl BlockRegistry {
    /// Numeric ID of the block with string ID `name`.
    pub fn get_id(&self, name: &str) -> (r: Option<u16>)
        requires
            self.wf(),
        ensures
            r is None <==> !has_id(self.defs(), name@),
            r matches Some(v) ==> exists|i: int|
                0 <= i < self.defs().len() && self.defs()[i].id@ == name@ && v == i as u16,
            r matches Some(v) ==> forall|j: int|
                0 <= j < self.defs().len() && (#[trigger] self.defs()[j]).id@ == name@ ==> v == j as u16,
    {
        let key: String = name.to_owned();
        proof {
            self.lemma_ids_distinct();
        }
        match self.find(&key) {
            Some(i) => Some(i as u16),
            None => None,
        }
    }

    /// Display name of the block with numeric ID `index`.
    pub fn get_block_name(&self, index: u16) -> (r: Option<&str>)
        ensures
            r is Some <==> (index as int) < self.defs().len(),
            r matches Some(s) ==> s@ == self.defs()[index as int].name@,
    {
        if (index as usize) < self.blocks.len() {
            Some(self.blocks[index as usize].name.as_str())
        } else {
            None
        }
    }

    /// Definition of the block with numeric ID `idx`.
    pub fn get_block(&self, idx: u16) -> (r: Option<&BlockDef>)
        ensures
            r is Some <==> (idx as int) < self.defs().len(),
            r matches Some(b) ==> *b == self.defs()[idx as int],
    {
        if (idx as usize) < self.blocks.len() {
            Some(&self.blocks[idx as usize])
        } else {
            None
        }
    }

    /// Number of registered blocks, air included (truncated to `u16`).
    pub fn block_count(&self) -> (r: u16)
        ensures
            r == self.defs().len() as u16,
    {
        self.blocks.len() as u16
    }

    /// The 256 x 256 x 2-layer RGBA8 palette texture: 524288 bytes laid out
    /// as [`spec_texture_byte`] describes.
    pub fn generate_texture_data(&self) -> (data: Vec<u8>)
        requires
            self.defs().len() <= 65536,
            forall|i: int| 0 <= i < self.defs().len() ==> hex_color_sliceable(
                #[trigger] vstd::utf8::encode_utf8(self.defs()[i].color@),
            ),
        ensures
            data@.len() == 2 * LAYER_SIZE,
            forall|j: int| 0 <= j < 2 * LAYER_SIZE ==> #[trigger] data@[j] == spec_texture_byte(self.defs(), j),
            forall|p: int|
                #![trigger self.defs()[p]]
                0 <= p < self.defs().len() ==> {
                    &&& data@[texel_byte(1, p, 0)] == self.defs()[p].roughness
                    &&& data@[texel_byte(1, p, 1)] == self.defs()[p].emission
                    &&& data@[texel_byte(1, p, 2)] == self.defs()[p].noise
                    &&& data@[texel_byte(1, p, 3)] == self.defs()[p].metallic
                },
            forall|p: int, c: int|
                self.defs().len() <= p < 65536 && 0 <= c < 4 ==> #[trigger] data@[texel_byte(1, p, c)] == 0,
            forall|c: int| 0 <= c < 4 ==> #[trigger] data@[texel_byte(0, 0, c)] == 0,
            forall|p: int|
                #![trigger self.defs()[p]]
                0 < p < self.defs().len() ==> {
                    &&& data@[texel_byte(0, p, 0)] == spec_hex_channel(vstd::utf8::encode_utf8(self.defs()[p].color@), 0)
                    &&& data@[texel_byte(0, p, 1)] == spec_hex_channel(vstd::utf8::encode_utf8(self.defs()[p].color@), 1)
                    &&& data@[texel_byte(0, p, 2)] == spec_hex_channel(vstd::utf8::encode_utf8(self.defs()[p].color@), 2)
                    &&& data@[texel_byte(0, p, 3)] == 255
                },
            forall|p: int|
                0 < p && self.defs().len() <= p < 65536 ==> {
                    &&& #[trigger] data@[texel_byte(0, p, 0)] == 255
                    &&& data@[texel_byte(0, p, 1)] == 0
                    &&& data@[texel_byte(0, p, 2)] == 255
                    &&& data@[texel_byte(0, p, 3)] == 255
                },
    {
        let mut data: Vec<u8> = vec![0u8; 2 * LAYER_SIZE];
        let mut i: usize = 0;
        while i < LAYER_SIZE / 4
            invariant
                i <= LAYER_SIZE / 4,
                data@.len() == 2 * LAYER_SIZE,
                forall|j: int| 0 <= j < 2 * LAYER_SIZE ==> #[trigger] data@[j] == if j < 4 * i {
                    if j % 4 == 1 { 0u8 } else { 255u8 }
                } else {
                    0u8
                },
            decreases LAYER_SIZE / 4 - i,
        {
            let off = i * 4;
            data[off] = 255;
            data[off + 1] = 0;
            data[off + 2] = 255;
            data[off + 3] = 255;
            i = i + 1;
        }
        data[0] = 0;
        data[1] = 0;
        data[2] = 0;
        data[3] = 0;
        let n = self.blocks.len();
        let mut b: usize = 0;
        while b < n
            invariant
                b <= n,
                n == self.defs().len(),
                n <= 65536,
                data@.len() == 2 * LAYER_SIZE,
                forall|i: int| 0 <= i < self.defs().len() ==> hex_color_sliceable(
                    #[trigger] vstd::utf8::encode_utf8(self.defs()[i].color@),
                ),
                forall|j: int| 0 <= j < 2 * LAYER_SIZE ==> #[trigger] data@[j] == {
                    let p = if j < LAYER_SIZE { j / 4 } else { (j - LAYER_SIZE) / 4 };
                    if p < b {
                        spec_texture_byte(self.defs(), j)
                    } else {
                        spec_texture_byte(Seq::empty(), j)
                    }
                },
            decreases n - b,
        {
            let block = &self.blocks[b];
            let pixel = ((b / 256) * 256 + b % 256) * 4;
            assert(pixel == 4 * b);
            if b != 0 {
                let cs = block.color.as_str();
                assert(cs.spec_bytes() == vstd::utf8::encode_utf8(self.defs()[b as int].color@));
                let rgb = parse_hex_color(cs);
                data[pixel] = rgb[0];
                data[pixel + 1] = rgb[1];
                data[pixel + 2] = rgb[2];
                data[pixel + 3] = 255;
            }
            let l1 = LAYER_SIZE + pixel;
            data[l1] = block.roughness;
            data[l1 + 1] = block.emission;
            data[l1 + 2] = block.noise;
            data[l1 + 3] = block.metallic;
            b = b + 1;
        }
        proof {
            let defs = self.defs();
            assert forall|p: int| 0 <= p < 65536 implies {
                &&& p < defs.len() ==> {
                    &&& data@[texel_byte(1, p, 0)] == defs[p].roughness
                    &&& data@[texel_byte(1, p, 1)] == defs[p].emission
                    &&& data@[texel_byte(1, p, 2)] == defs[p].noise
                    &&& data@[texel_byte(1, p, 3)] == defs[p].metallic
                }
                &&& p >= defs.len() ==> forall|c: int| 0 <= c < 4 ==> #[trigger] data@[texel_byte(1, p, c)] == 0
                &&& p == 0 ==> forall|c: int| 0 <= c < 4 ==> #[trigger] data@[texel_byte(0, p, c)] == 0
                &&& 0 < p < defs.len() ==> {
                    &&& data@[texel_byte(0, p, 0)] == spec_hex_channel(vstd::utf8::encode_utf8(defs[p].color@), 0)
                    &&& data@[texel_byte(0, p, 1)] == spec_hex_channel(vstd::utf8::encode_utf8(defs[p].color@), 1)
                    &&& data@[texel_byte(0, p, 2)] == spec_hex_channel(vstd::utf8::encode_utf8(defs[p].color@), 2)
                    &&& data@[texel_byte(0, p, 3)] == 255
                }
                &&& 0 < p && p >= defs.len() ==> {
                    &&& data@[texel_byte(0, p, 0)] == 255
                    &&& data@[texel_byte(0, p, 1)] == 0
                    &&& data@[texel_byte(0, p, 2)] == 255
                    &&& data@[texel_byte(0, p, 3)] == 255
                }
            } by {
                lemma_palette_layout(defs, p);
                assert forall|c: int| 0 <= c < 4 implies {
                    &&& data@[texel_byte(0, p, c)] == spec_texture_byte(defs, texel_byte(0, p, c))
                    &&& data@[texel_byte(1, p, c)] == spec_texture_byte(defs, texel_byte(1, p, c))
                } by {}
            }
        }
        data
    }
}

/// Whether `parse_hex_color` can slice the color digits of `s`.
pub fn hex_color_is_sliceable(s: &str) -> (r: bool)
    ensures
        r == hex_color_sliceable(s.spec_bytes()),
{
    let bytes = s.as_bytes();
    let start: usize = if bytes.len() > 0 && bytes[0] == 35 {
        1
    } else {
        0
    };
    let n = bytes.len() - start;
    assert(hex_digits(bytes@) =~= bytes@.subrange(start as int, bytes@.len() as int));
    if n != 6 && n != 8 {
        return true;
    }
    let b2 = bytes[start + 2];
    let b4 = bytes[start + 4];
    let b6_ok = if n == 6 {
        true
    } else {
        let b6 = bytes[start + 6];
        b6 < 0x80 || b6 >= 0xC0
    };
    (b2 < 0x80 || b2 >= 0xC0) && (b4 < 0x80 || b4 >= 0xC0) && b6_ok
}

impl BlockRegistry {
    /// Whether [`BlockRegistry::generate_texture_data`] can run: at most
    /// 65536 blocks, each color sliceable.
    pub fn palette_ready(&self) -> (r: bool)
        ensures
            r == (self.defs().len() <= 65536 && forall|i: int|
                0 <= i < self.defs().len() ==> hex_color_sliceable(
                    #[trigger] vstd::utf8::encode_utf8(self.defs()[i].color@),
                )),
    {
        if self.blocks.len() > 65536 {
            return false;
        }
        let mut i: usize = 0;
        while i < self.blocks.len()
            invariant
                i <= self.defs().len(),
                forall|k: int| 0 <= k < i ==> hex_color_sliceable(
                    #[trigger] vstd::utf8::encode_utf8(self.defs()[k].color@),
                ),
            decreases self.defs().len() - i,
        {
            let cs = self.blocks[i].color.as_str();
            assert(cs.spec_bytes() == vstd::utf8::encode_utf8(self.defs()[i as int].color@));
            if !hex_color_is_sliceable(cs) {
                return false;
            }
            i = i + 1;
        }
        true
    }
}

} // verus!
