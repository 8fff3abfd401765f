//! The tensor types of GGUF files and the room their elements take.
use crate::text::str_eq;
use vstd::prelude::*;

verus! {

/// Tensor quantization type info.
#[derive(Debug, Clone)]
pub struct GgufTypeInfo {
    pub name: &'static str,
    pub block_elems: u32,
    pub block_bytes: u32,
}

/// One row of the type table.
pub struct TypeRow {
    pub name: Seq<char>,
    pub block_elems: u32,
    pub block_bytes: u32,
}

impl View for GgufTypeInfo {
    type V = TypeRow;

    open spec fn view(&self) -> TypeRow {
        TypeRow {
            name: self.name@,
            block_elems: self.block_elems,
            block_bytes: self.block_bytes,
        }
    }
}

/// All known tensor types, by their number on disk. Rows without elements are unassigned.
pub open spec fn type_table() -> Seq<TypeRow> {
    seq![
        TypeRow { name: "f32"@, block_elems: 1, block_bytes: 4 },
        TypeRow { name: "f16"@, block_elems: 1, block_bytes: 2 },
        TypeRow { name: "q4_0"@, block_elems: 32, block_bytes: 18 },
        TypeRow { name: "q4_1"@, block_elems: 32, block_bytes: 20 },
        TypeRow { name: "unk4"@, block_elems: 0, block_bytes: 0 },
        TypeRow { name: "unk5"@, block_elems: 0, block_bytes: 0 },
        TypeRow { name: "q5_0"@, block_elems: 32, block_bytes: 22 },
        TypeRow { name: "q5_1"@, block_elems: 32, block_bytes: 24 },
        TypeRow { name: "q8_0"@, block_elems: 32, block_bytes: 34 },
        TypeRow { name: "q8_1"@, block_elems: 32, block_bytes: 40 },
        TypeRow { name: "q2_k"@, block_elems: 256, block_bytes: 84 },
        TypeRow { name: "q3_k"@, block_elems: 256, block_bytes: 110 },
        TypeRow { name: "q4_k"@, block_elems: 256, block_bytes: 144 },
        TypeRow { name: "q5_k"@, block_elems: 256, block_bytes: 176 },
        TypeRow { name: "q6_k"@, block_elems: 256, block_bytes: 210 },
        TypeRow { name: "q8_k"@, block_elems: 256, block_bytes: 292 },
        TypeRow { name: "iq2_xxs"@, block_elems: 256, block_bytes: 66 },
        TypeRow { name: "iq2_xs"@, block_elems: 256, block_bytes: 74 },
        TypeRow { name: "iq3_xxs"@, block_elems: 256, block_bytes: 98 },
        TypeRow { name: "iq1_s"@, block_elems: 256, block_bytes: 110 },
        TypeRow { name: "iq4_nl"@, block_elems: 256, block_bytes: 50 },
        TypeRow { name: "iq3_s"@, block_elems: 256, block_bytes: 110 },
        TypeRow { name: "iq2_s"@, block_elems: 256, block_bytes: 82 },
        TypeRow { name: "iq4_xs"@, block_elems: 256, block_bytes: 136 },
        TypeRow { name: "i8"@, block_elems: 1, block_bytes: 1 },
        TypeRow { name: "i16"@, block_elems: 1, block_bytes: 2 },
        TypeRow { name: "i32"@, block_elems: 1, block_bytes: 4 },
        TypeRow { name: "i64"@, block_elems: 1, block_bytes: 8 },
        TypeRow { name: "f64"@, block_elems: 1, block_bytes: 8 },
        TypeRow { name: "iq1_m"@, block_elems: 256, block_bytes: 56 },
        TypeRow { name: "bf16"@, block_elems: 1, block_bytes: 2 },
    ]
}

/// How many tensor types the table holds.
pub const GGUF_TYPE_COUNT: u32 = 31;

/// A type number that the table assigns.
pub open spec fn known_type(tensor_type: u32) -> bool {
    tensor_type < GGUF_TYPE_COUNT && type_table()[tensor_type as int].block_elems != 0
}

/// The bytes that `elements` elements of a known type take, whole blocks each.
pub open spec fn blocks_bytes(elements: nat, tensor_type: u32) -> nat {
    let row = type_table()[tensor_type as int];
    ((elements + row.block_elems - 1) / row.block_elems as int * row.block_bytes) as nat
}

/// The row of the type table with the given number.
pub fn gguf_type_row(tensor_type: u32) -> (r: GgufTypeInfo)
    requires
        tensor_type < GGUF_TYPE_COUNT,
    ensures
        r@ == type_table()[tensor_type as int],
{
    match tensor_type {
        0 => GgufTypeInfo { name: "f32", block_elems: 1, block_bytes: 4 },
        1 => GgufTypeInfo { name: "f16", block_elems: 1, block_bytes: 2 },
        2 => GgufTypeInfo { name: "q4_0", block_elems: 32, block_bytes: 18 },
        3 => GgufTypeInfo { name: "q4_1", block_elems: 32, block_bytes: 20 },
        4 => GgufTypeInfo { name: "unk4", block_elems: 0, block_bytes: 0 },
        5 => GgufTypeInfo { name: "unk5", block_elems: 0, block_bytes: 0 },
        6 => GgufTypeInfo { name: "q5_0", block_elems: 32, block_bytes: 22 },
        7 => GgufTypeInfo { name: "q5_1", block_elems: 32, block_bytes: 24 },
        8 => GgufTypeInfo { name: "q8_0", block_elems: 32, block_bytes: 34 },
        9 => GgufTypeInfo { name: "q8_1", block_elems: 32, block_bytes: 40 },
        10 => GgufTypeInfo { name: "q2_k", block_elems: 256, block_bytes: 84 },
        11 => GgufTypeInfo { name: "q3_k", block_elems: 256, block_bytes: 110 },
        12 => GgufTypeInfo { name: "q4_k", block_elems: 256, block_bytes: 144 },
        13 => GgufTypeInfo { name: "q5_k", block_elems: 256, block_bytes: 176 },
        14 => GgufTypeInfo { name: "q6_k", block_elems: 256, block_bytes: 210 },
        15 => GgufTypeInfo { name: "q8_k", block_elems: 256, block_bytes: 292 },
        16 => GgufTypeInfo { name: "iq2_xxs", block_elems: 256, block_bytes: 66 },
        17 => GgufTypeInfo { name: "iq2_xs", block_elems: 256, block_bytes: 74 },
        18 => GgufTypeInfo { name: "iq3_xxs", block_elems: 256, block_bytes: 98 },
        19 => GgufTypeInfo { name: "iq1_s", block_elems: 256, block_bytes: 110 },
        20 => GgufTypeInfo { name: "iq4_nl", block_elems: 256, block_bytes: 50 },
        21 => GgufTypeInfo { name: "iq3_s", block_elems: 256, block_bytes: 110 },
        22 => GgufTypeInfo { name: "iq2_s", block_elems: 256, block_bytes: 82 },
        23 => GgufTypeInfo { name: "iq4_xs", block_elems: 256, block_bytes: 136 },
        24 => GgufTypeInfo { name: "i8", block_elems: 1, block_bytes: 1 },
        25 => GgufTypeInfo { name: "i16", block_elems: 1, block_bytes: 2 },
        26 => GgufTypeInfo { name: "i32", block_elems: 1, block_bytes: 4 },
        27 => GgufTypeInfo { name: "i64", block_elems: 1, block_bytes: 8 },
        28 => GgufTypeInfo { name: "f64", block_elems: 1, block_bytes: 8 },
        29 => GgufTypeInfo { name: "iq1_m", block_elems: 256, block_bytes: 56 },
        _ => GgufTypeInfo { name: "bf16", block_elems: 1, block_bytes: 2 },
    }
}

/// Look up type info: `None` for a number outside the table or one that is unassigned.
pub fn gguf_type_info(tensor_type: u32) -> (r: Option<GgufTypeInfo>)
    ensures
        r is Some <==> known_type(tensor_type),
        r is Some ==> r->0@ == type_table()[tensor_type as int],
{
    if tensor_type >= GGUF_TYPE_COUNT {
        return None;
    }
    let info = gguf_type_row(tensor_type);
    if info.block_elems == 0 {
        None
    } else {
        Some(info)
    }
}

/// Row `i` is the first one with a name.
pub open spec fn first_named(name: Seq<char>, i: int) -> bool {
    &&& 0 <= i < GGUF_TYPE_COUNT
    &&& type_table()[i].name == name
    &&& forall|k: int| 0 <= k < i ==> (#[trigger] type_table()[k]).name != name
}

/// The type number of a name, if a row has it.
pub open spec fn type_number(name: Seq<char>) -> Option<int> {
    if exists|i: int| first_named(name, i) {
        Some(choose|i: int| first_named(name, i))
    } else {
        None
    }
}

proof fn lemma_type_number(name: Seq<char>, i: int)
    requires
        first_named(name, i),
    ensures
        type_number(name) == Some(i),
{
    let k = choose|k: int| first_named(name, k);
    assert(first_named(name, k));
    if k < i {
        assert(type_table()[k].name != name);
    } else if i < k {
        assert(type_table()[i].name != name);
    }
}

/// The number of a type name by its letters.
spec fn spelled(n: Seq<char>) -> int {
    let len = n.len();
    if len == 2 {
        24
    } else if len == 3 {
        if n[0] == 'f' {
            if n[1] == '3' {
                0
            } else if n[1] == '1' {
                1
            } else {
                28
            }
        } else if n[1] == '1' {
            25
        } else if n[1] == '3' {
            26
        } else {
            27
        }
    } else if len == 4 {
        if n[0] == 'b' {
            30
        } else if n[0] == 'u' {
            if n[3] == '4' {
                4
            } else {
                5
            }
        } else if n[3] == 'k' {
            if n[1] == '2' {
                10
            } else if n[1] == '3' {
                11
            } else if n[1] == '4' {
                12
            } else if n[1] == '5' {
                13
            } else if n[1] == '6' {
                14
            } else {
                15
            }
        } else if n[1] == '4' {
            if n[3] == '0' {
                2
            } else {
                3
            }
        } else if n[1] == '5' {
            if n[3] == '0' {
                6
            } else {
                7
            }
        } else if n[3] == '0' {
            8
        } else {
            9
        }
    } else if len == 5 {
        if n[2] == '1' {
            if n[4] == 's' {
                19
            } else {
                29
            }
        } else if n[2] == '3' {
            21
        } else {
            22
        }
    } else if len == 6 {
        if n[2] == '2' {
            17
        } else if n[4] == 'n' {
            20
        } else {
            23
        }
    } else if n[2] == '2' {
        16
    } else {
        18
    }
}

proof fn lemma_spelled(k: int)
    requires
        0 <= k < GGUF_TYPE_COUNT,
    ensures
        spelled(type_table()[k].name) == k,
{
    reveal_strlit("f32");
    reveal_strlit("f16");
    reveal_strlit("q4_0");
    reveal_strlit("q4_1");
    reveal_strlit("unk4");
    reveal_strlit("unk5");
    reveal_strlit("q5_0");
    reveal_strlit("q5_1");
    reveal_strlit("q8_0");
    reveal_strlit("q8_1");
    reveal_strlit("q2_k");
    reveal_strlit("q3_k");
    reveal_strlit("q4_k");
    reveal_strlit("q5_k");
    reveal_strlit("q6_k");
    reveal_strlit("q8_k");
    reveal_strlit("iq2_xxs");
    reveal_strlit("iq2_xs");
    reveal_strlit("iq3_xxs");
    reveal_strlit("iq1_s");
    reveal_strlit("iq4_nl");
    reveal_strlit("iq3_s");
    reveal_strlit("iq2_s");
    reveal_strlit("iq4_xs");
    reveal_strlit("i8");
    reveal_strlit("i16");
    reveal_strlit("i32");
    reveal_strlit("i64");
    reveal_strlit("f64");
    reveal_strlit("iq1_m");
    reveal_strlit("bf16");
}

/// The lookups of types undo each other: the name of every type leads back to its number, and the
/// number that a name leads to has that name.
pub proof fn law_type_lookups_undo(tensor_type: u32, name: Seq<char>)
    ensures
        tensor_type < GGUF_TYPE_COUNT ==> type_number(type_table()[tensor_type as int].name)
            == Some(tensor_type as int),
        type_number(name) matches Some(i) ==> 0 <= i < GGUF_TYPE_COUNT && type_table()[i].name
            == name,
{
    if tensor_type < GGUF_TYPE_COUNT {
        let own = type_table()[tensor_type as int].name;
        assert forall|k: int| 0 <= k < tensor_type implies (#[trigger] type_table()[k]).name
            != own by {
            lemma_spelled(k);
            lemma_spelled(tensor_type as int);
        }
        lemma_type_number(own, tensor_type as int);
    }
    if type_number(name) is Some {
        let i = choose|i: int| first_named(name, i);
        assert(first_named(name, i));
    }
}

/// A name leads to a type number, and a block of that type has so many elements and bytes.
pub open spec fn type_is(name: Seq<char>, number: int, elems: u32, bytes: nat) -> bool {
    &&& type_number(name) == Some(number)
    &&& type_table()[number].block_elems == elems
    &&& type_table()[number].block_bytes == bytes
}

/// What each name of a tensor type stands for: its number in a file, the elements of a block, and
/// the bytes of a block, which are those of its parts (scales, high bits, codes).
pub proof fn law_type_sizes()
    ensures
        type_is("f32"@, 0, 1, 4),
        type_is("f16"@, 1, 1, 2),
        type_is("q4_0"@, 2, 32, 2 + 16),
        type_is("q4_1"@, 3, 32, 2 + 2 + 16),
        type_is("q5_0"@, 6, 32, 2 + 4 + 16),
        type_is("q5_1"@, 7, 32, 2 + 2 + 4 + 16),
        type_is("q8_0"@, 8, 32, 2 + 32),
        type_is("q8_1"@, 9, 32, 4 + 4 + 32),
        type_is("q2_k"@, 10, 256, 16 + 64 + 2 + 2),
        type_is("q3_k"@, 11, 256, 32 + 64 + 12 + 2),
        type_is("q4_k"@, 12, 256, 2 + 2 + 12 + 128),
        type_is("q5_k"@, 13, 256, 2 + 2 + 12 + 32 + 128),
        type_is("q6_k"@, 14, 256, 128 + 64 + 16 + 2),
        type_is("q8_k"@, 15, 256, 4 + 256 + 32),
        type_is("iq2_xxs"@, 16, 256, 2 + 64),
        type_is("iq2_xs"@, 17, 256, 2 + 64 + 8),
        type_is("iq3_xxs"@, 18, 256, 2 + 64 + 32),
        type_is("iq1_s"@, 19, 256, 110),
        type_is("iq4_nl"@, 20, 256, 50),
        type_is("iq3_s"@, 21, 256, 2 + 64 + 8 + 32 + 4),
        type_is("iq2_s"@, 22, 256, 2 + 64 + 8 + 8),
        type_is("iq4_xs"@, 23, 256, 2 + 2 + 4 + 128),
        type_is("i8"@, 24, 1, 1),
        type_is("i16"@, 25, 1, 2),
        type_is("i32"@, 26, 1, 4),
        type_is("i64"@, 27, 1, 8),
        type_is("f64"@, 28, 1, 8),
        type_is("iq1_m"@, 29, 256, 32 + 16 + 8),
        type_is("bf16"@, 30, 1, 2),
        type_table()[4].block_elems == 0 && type_table()[5].block_elems == 0,
{
    law_type_lookups_undo(0, seq![]);
    law_type_lookups_undo(1, seq![]);
    law_type_lookups_undo(2, seq![]);
    law_type_lookups_undo(3, seq![]);
    law_type_lookups_undo(6, seq![]);
    law_type_lookups_undo(7, seq![]);
    law_type_lookups_undo(8, seq![]);
    law_type_lookups_undo(9, seq![]);
    law_type_lookups_undo(10, seq![]);
    law_type_lookups_undo(11, seq![]);
    law_type_lookups_undo(12, seq![]);
    law_type_lookups_undo(13, seq![]);
    law_type_lookups_undo(14, seq![]);
    law_type_lookups_undo(15, seq![]);
    law_type_lookups_undo(16, seq![]);
    law_type_lookups_undo(17, seq![]);
    law_type_lookups_undo(18, seq![]);
    law_type_lookups_undo(19, seq![]);
    law_type_lookups_undo(20, seq![]);
    law_type_lookups_undo(21, seq![]);
    law_type_lookups_undo(22, seq![]);
    law_type_lookups_undo(23, seq![]);
    law_type_lookups_undo(24, seq![]);
    law_type_lookups_undo(25, seq![]);
    law_type_lookups_undo(26, seq![]);
    law_type_lookups_undo(27, seq![]);
    law_type_lookups_undo(28, seq![]);
    law_type_lookups_undo(29, seq![]);
    law_type_lookups_undo(30, seq![]);
}

/// Find the type number of a name: the first row with that name.
pub fn gguf_type_index(name: &str) -> (r: Option<usize>)
    ensures
        type_number(name@) == match r {
            Some(i) => Some(i as int),
            None => None,
        },
        r matches Some(i) ==> i < GGUF_TYPE_COUNT && type_table()[i as int].name == name@ && (
        forall|k: int| 0 <= k < i ==> (#[trigger] type_table()[k]).name != name@),
        r is None ==> forall|k: int|
            0 <= k < GGUF_TYPE_COUNT ==> (#[trigger] type_table()[k]).name != name@,
{
    let mut i: u32 = 0;
    while i < GGUF_TYPE_COUNT
        invariant
            i <= GGUF_TYPE_COUNT,
            forall|k: int| 0 <= k < i ==> (#[trigger] type_table()[k]).name != name@,
        decreases GGUF_TYPE_COUNT - i,
    {
        if str_eq(gguf_type_row(i).name, name) {
            proof {
                lemma_type_number(name@, i as int);
            }
            return Some(i as usize);
        }
        i = i + 1;
    }
    assert forall|k: int| !first_named(name@, k) by {
        if 0 <= k < GGUF_TYPE_COUNT {
            assert(type_table()[k].name != name@);
        }
    }
    None
}

/// Compute the bytes of a tensor from its element count and type: `None` for an unknown type, or
/// if the byte count does not fit.
pub fn tensor_byte_size(elements: u64, tensor_type: u32) -> (r: Option<u64>)
    requires
        known_type(tensor_type) ==> elements + type_table()[tensor_type as int].block_elems
            <= u64::MAX,
    ensures
        r is Some <==> known_type(tensor_type) && blocks_bytes(elements as nat, tensor_type)
            <= u64::MAX,
        r is Some ==> r->0 == blocks_bytes(elements as nat, tensor_type),
{
    match gguf_type_info(tensor_type) {
        None => None,
        Some(info) => {
            let blocks: u64 = (elements + info.block_elems as u64 - 1) / info.block_elems as u64;
            blocks.checked_mul(info.block_bytes as u64)
        },
    }
}

} // verus!
