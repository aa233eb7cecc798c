//! The tensor element types of a GGUF file: which ids are supported, how many
//! elements and bytes one block of each holds, and what the refused ones are
//! called.
use vstd::prelude::*;

verus! {

/// A tensor type that the runner can read.
#[allow(non_camel_case_types)]
#[derive(Clone, Copy, Debug, PartialEq, Eq, Structural, Hash)]
pub enum GgmlType {
    F32,
    F16,
    Q4_0,
    Q5_0,
    Q8_0,
    Q2_K,
    Q3_K,
    Q4_K,
    Q5_K,
    Q6_K,
    IQ2_XXS,
    IQ2_XS,
    IQ3_XXS,
    IQ1_S,
    IQ4_NL,
    IQ3_S,
    IQ2_S,
    IQ4_XS,
    IQ1_M,
}

/// A tensor type that the runner refuses. The variants stand in the byte order
/// of their names.
#[allow(non_camel_case_types)]
#[derive(Clone, Copy, Debug, PartialEq, Eq, Structural, Hash)]
pub enum RefusedType {
    Bf16,
    F64,
    I16,
    I32,
    I64,
    I8,
    Mxfp4,
    Q4_1,
    Q5_1,
    Q8_1,
    Q8_K,
    Tq1_0,
    Tq2_0,
    Unknown,
}

/// The number of supported types.
pub const SUPPORTED_TYPES: usize = 19;

/// The number of refused types.
pub const REFUSED_TYPES: usize = 14;

/// The type that a GGUF type id stands for.
pub open spec fn type_of_id(id: u32) -> Result<GgmlType, RefusedType> {
    match id {
        0u32 => Ok(GgmlType::F32),
        1u32 => Ok(GgmlType::F16),
        2u32 => Ok(GgmlType::Q4_0),
        6u32 => Ok(GgmlType::Q5_0),
        8u32 => Ok(GgmlType::Q8_0),
        10u32 => Ok(GgmlType::Q2_K),
        11u32 => Ok(GgmlType::Q3_K),
        12u32 => Ok(GgmlType::Q4_K),
        13u32 => Ok(GgmlType::Q5_K),
        14u32 => Ok(GgmlType::Q6_K),
        16u32 => Ok(GgmlType::IQ2_XXS),
        17u32 => Ok(GgmlType::IQ2_XS),
        18u32 => Ok(GgmlType::IQ3_XXS),
        19u32 => Ok(GgmlType::IQ1_S),
        20u32 => Ok(GgmlType::IQ4_NL),
        21u32 => Ok(GgmlType::IQ3_S),
        22u32 => Ok(GgmlType::IQ2_S),
        23u32 => Ok(GgmlType::IQ4_XS),
        29u32 => Ok(GgmlType::IQ1_M),
        30u32 => Err(RefusedType::Bf16),
        28u32 => Err(RefusedType::F64),
        25u32 => Err(RefusedType::I16),
        26u32 => Err(RefusedType::I32),
        27u32 => Err(RefusedType::I64),
        24u32 => Err(RefusedType::I8),
        39u32 => Err(RefusedType::Mxfp4),
        3u32 => Err(RefusedType::Q4_1),
        7u32 => Err(RefusedType::Q5_1),
        9u32 => Err(RefusedType::Q8_1),
        15u32 => Err(RefusedType::Q8_K),
        34u32 => Err(RefusedType::Tq1_0),
        35u32 => Err(RefusedType::Tq2_0),
        _ => Err(RefusedType::Unknown),
    }
}

impl GgmlType {
    /// The supported type at place `k`.
    pub open spec fn at(k: usize) -> GgmlType {
        match k {
            0usize => GgmlType::F32,
            1usize => GgmlType::F16,
            2usize => GgmlType::Q4_0,
            3usize => GgmlType::Q5_0,
            4usize => GgmlType::Q8_0,
            5usize => GgmlType::Q2_K,
            6usize => GgmlType::Q3_K,
            7usize => GgmlType::Q4_K,
            8usize => GgmlType::Q5_K,
            9usize => GgmlType::Q6_K,
            10usize => GgmlType::IQ2_XXS,
            11usize => GgmlType::IQ2_XS,
            12usize => GgmlType::IQ3_XXS,
            13usize => GgmlType::IQ1_S,
            14usize => GgmlType::IQ4_NL,
            15usize => GgmlType::IQ3_S,
            16usize => GgmlType::IQ2_S,
            17usize => GgmlType::IQ4_XS,
            _ => GgmlType::IQ1_M,
        }
    }

    pub fn of_rank(k: usize) -> (r: GgmlType)
        ensures
            r == GgmlType::at(k),
    {
        match k {
            0 => GgmlType::F32,
            1 => GgmlType::F16,
            2 => GgmlType::Q4_0,
            3 => GgmlType::Q5_0,
            4 => GgmlType::Q8_0,
            5 => GgmlType::Q2_K,
            6 => GgmlType::Q3_K,
            7 => GgmlType::Q4_K,
            8 => GgmlType::Q5_K,
            9 => GgmlType::Q6_K,
            10 => GgmlType::IQ2_XXS,
            11 => GgmlType::IQ2_XS,
            12 => GgmlType::IQ3_XXS,
            13 => GgmlType::IQ1_S,
            14 => GgmlType::IQ4_NL,
            15 => GgmlType::IQ3_S,
            16 => GgmlType::IQ2_S,
            17 => GgmlType::IQ4_XS,
            _ => GgmlType::IQ1_M,
        }
    }

    /// The type with the GGUF id `id`.
    pub fn from_gguf(id: u32) -> (r: Result<GgmlType, RefusedType>)
        ensures
            r == type_of_id(id),
    {
        match id {
            0 => Ok(GgmlType::F32),
            1 => Ok(GgmlType::F16),
            2 => Ok(GgmlType::Q4_0),
            6 => Ok(GgmlType::Q5_0),
            8 => Ok(GgmlType::Q8_0),
            10 => Ok(GgmlType::Q2_K),
            11 => Ok(GgmlType::Q3_K),
            12 => Ok(GgmlType::Q4_K),
            13 => Ok(GgmlType::Q5_K),
            14 => Ok(GgmlType::Q6_K),
            16 => Ok(GgmlType::IQ2_XXS),
            17 => Ok(GgmlType::IQ2_XS),
            18 => Ok(GgmlType::IQ3_XXS),
            19 => Ok(GgmlType::IQ1_S),
            20 => Ok(GgmlType::IQ4_NL),
            21 => Ok(GgmlType::IQ3_S),
            22 => Ok(GgmlType::IQ2_S),
            23 => Ok(GgmlType::IQ4_XS),
            29 => Ok(GgmlType::IQ1_M),
            30 => Err(RefusedType::Bf16),
            28 => Err(RefusedType::F64),
            25 => Err(RefusedType::I16),
            26 => Err(RefusedType::I32),
            27 => Err(RefusedType::I64),
            24 => Err(RefusedType::I8),
            39 => Err(RefusedType::Mxfp4),
            3 => Err(RefusedType::Q4_1),
            7 => Err(RefusedType::Q5_1),
            9 => Err(RefusedType::Q8_1),
            15 => Err(RefusedType::Q8_K),
            34 => Err(RefusedType::Tq1_0),
            35 => Err(RefusedType::Tq2_0),
            _ => Err(RefusedType::Unknown),
        }
    }

    /// Elements per block.
    pub open spec fn block_len(self) -> nat {
        match self {
            GgmlType::F32 | GgmlType::F16 => 1,
            GgmlType::Q4_0 | GgmlType::Q5_0 | GgmlType::Q8_0 | GgmlType::IQ4_NL => 32,
            _ => 256,
        }
    }

    /// Bytes per block.
    pub open spec fn block_size(self) -> nat {
        match self {
            GgmlType::F32 => 4,
            GgmlType::F16 => 2,
            GgmlType::Q4_0 => 18,
            GgmlType::Q5_0 => 22,
            GgmlType::Q8_0 => 34,
            GgmlType::Q2_K => 84,
            GgmlType::Q3_K => 110,
            GgmlType::Q4_K => 144,
            GgmlType::Q5_K => 176,
            GgmlType::Q6_K => 210,
            GgmlType::IQ2_XXS => 66,
            GgmlType::IQ2_XS => 74,
            GgmlType::IQ3_XXS => 98,
            GgmlType::IQ1_S => 50,
            GgmlType::IQ4_NL => 18,
            GgmlType::IQ3_S => 110,
            GgmlType::IQ2_S => 82,
            GgmlType::IQ4_XS => 136,
            GgmlType::IQ1_M => 56,
        }
    }

    /// Bytes of `n` elements: whole blocks only.
    pub open spec fn bytes_of(self, n: nat) -> nat {
        n / self.block_len() * self.block_size()
    }

    /// The type's name.
    pub open spec fn label(self) -> Seq<char> {
        match self {
            GgmlType::F32 => "F32"@,
            GgmlType::F16 => "F16"@,
            GgmlType::Q4_0 => "Q4_0"@,
            GgmlType::Q5_0 => "Q5_0"@,
            GgmlType::Q8_0 => "Q8_0"@,
            GgmlType::Q2_K => "Q2_K"@,
            GgmlType::Q3_K => "Q3_K"@,
            GgmlType::Q4_K => "Q4_K"@,
            GgmlType::Q5_K => "Q5_K"@,
            GgmlType::Q6_K => "Q6_K"@,
            GgmlType::IQ2_XXS => "IQ2_XXS"@,
            GgmlType::IQ2_XS => "IQ2_XS"@,
            GgmlType::IQ3_XXS => "IQ3_XXS"@,
            GgmlType::IQ1_S => "IQ1_S"@,
            GgmlType::IQ4_NL => "IQ4_NL"@,
            GgmlType::IQ3_S => "IQ3_S"@,
            GgmlType::IQ2_S => "IQ2_S"@,
            GgmlType::IQ4_XS => "IQ4_XS"@,
            GgmlType::IQ1_M => "IQ1_M"@,
        }
    }

    pub fn blk_elems(&self) -> (r: u64)
        ensures
            r == self.block_len(),
    {
        match self {
            GgmlType::F32 | GgmlType::F16 => 1,
            GgmlType::Q4_0 | GgmlType::Q5_0 | GgmlType::Q8_0 | GgmlType::IQ4_NL => 32,
            _ => 256,
        }
    }

    pub fn blk_bytes(&self) -> (r: u64)
        ensures
            r == self.block_size(),
    {
        match self {
            GgmlType::F32 => 4,
            GgmlType::F16 => 2,
            GgmlType::Q4_0 => 18,
            GgmlType::Q5_0 => 22,
            GgmlType::Q8_0 => 34,
            GgmlType::Q2_K => 84,
            GgmlType::Q3_K => 110,
            GgmlType::Q4_K => 144,
            GgmlType::Q5_K => 176,
            GgmlType::Q6_K => 210,
            GgmlType::IQ2_XXS => 66,
            GgmlType::IQ2_XS => 74,
            GgmlType::IQ3_XXS => 98,
            GgmlType::IQ1_S => 50,
            GgmlType::IQ4_NL => 18,
            GgmlType::IQ3_S => 110,
            GgmlType::IQ2_S => 82,
            GgmlType::IQ4_XS => 136,
            GgmlType::IQ1_M => 56,
        }
    }

    /// The bytes of `n` elements, or `None` where they do not fit in 64 bits.
    pub fn row_bytes(&self, n: u64) -> (r: Option<u64>)
        ensures
            match r {
                Some(b) => b == self.bytes_of(n as nat),
                None => self.bytes_of(n as nat) > u64::MAX,
            },
    {
        let blocks: u64 = n / self.blk_elems();
        blocks.checked_mul(self.blk_bytes())
    }

    pub fn name(&self) -> (r: &'static str)
        ensures
            r@ == self.label(),
    {
        match self {
            GgmlType::F32 => "F32",
            GgmlType::F16 => "F16",
            GgmlType::Q4_0 => "Q4_0",
            GgmlType::Q5_0 => "Q5_0",
            GgmlType::Q8_0 => "Q8_0",
            GgmlType::Q2_K => "Q2_K",
            GgmlType::Q3_K => "Q3_K",
            GgmlType::Q4_K => "Q4_K",
            GgmlType::Q5_K => "Q5_K",
            GgmlType::Q6_K => "Q6_K",
            GgmlType::IQ2_XXS => "IQ2_XXS",
            GgmlType::IQ2_XS => "IQ2_XS",
            GgmlType::IQ3_XXS => "IQ3_XXS",
            GgmlType::IQ1_S => "IQ1_S",
            GgmlType::IQ4_NL => "IQ4_NL",
            GgmlType::IQ3_S => "IQ3_S",
            GgmlType::IQ2_S => "IQ2_S",
            GgmlType::IQ4_XS => "IQ4_XS",
            GgmlType::IQ1_M => "IQ1_M",
        }
    }
}

impl RefusedType {
    /// The type's place in the order of names.
    pub open spec fn place(self) -> nat {
        match self {
            RefusedType::Bf16 => 0,
            RefusedType::F64 => 1,
            RefusedType::I16 => 2,
            RefusedType::I32 => 3,
            RefusedType::I64 => 4,
            RefusedType::I8 => 5,
            RefusedType::Mxfp4 => 6,
            RefusedType::Q4_1 => 7,
            RefusedType::Q5_1 => 8,
            RefusedType::Q8_1 => 9,
            RefusedType::Q8_K => 10,
            RefusedType::Tq1_0 => 11,
            RefusedType::Tq2_0 => 12,
            RefusedType::Unknown => 13,
        }
    }

    /// The type's name.
    pub open spec fn label(self) -> Seq<char> {
        match self {
            RefusedType::Bf16 => "BF16"@,
            RefusedType::F64 => "F64"@,
            RefusedType::I16 => "I16"@,
            RefusedType::I32 => "I32"@,
            RefusedType::I64 => "I64"@,
            RefusedType::I8 => "I8"@,
            RefusedType::Mxfp4 => "MXFP4"@,
            RefusedType::Q4_1 => "Q4_1"@,
            RefusedType::Q5_1 => "Q5_1"@,
            RefusedType::Q8_1 => "Q8_1"@,
            RefusedType::Q8_K => "Q8_K"@,
            RefusedType::Tq1_0 => "TQ1_0"@,
            RefusedType::Tq2_0 => "TQ2_0"@,
            RefusedType::Unknown => "unknown"@,
        }
    }

    /// The refused type at place `k`.
    pub open spec fn at(k: usize) -> RefusedType {
        match k {
            0usize => RefusedType::Bf16,
            1usize => RefusedType::F64,
            2usize => RefusedType::I16,
            3usize => RefusedType::I32,
            4usize => RefusedType::I64,
            5usize => RefusedType::I8,
            6usize => RefusedType::Mxfp4,
            7usize => RefusedType::Q4_1,
            8usize => RefusedType::Q5_1,
            9usize => RefusedType::Q8_1,
            10usize => RefusedType::Q8_K,
            11usize => RefusedType::Tq1_0,
            12usize => RefusedType::Tq2_0,
            _ => RefusedType::Unknown,
        }
    }

    pub fn rank(&self) -> (r: usize)
        ensures
            r == self.place(),
            r < REFUSED_TYPES,
    {
        match self {
            RefusedType::Bf16 => 0,
            RefusedType::F64 => 1,
            RefusedType::I16 => 2,
            RefusedType::I32 => 3,
            RefusedType::I64 => 4,
            RefusedType::I8 => 5,
            RefusedType::Mxfp4 => 6,
            RefusedType::Q4_1 => 7,
            RefusedType::Q5_1 => 8,
            RefusedType::Q8_1 => 9,
            RefusedType::Q8_K => 10,
            RefusedType::Tq1_0 => 11,
            RefusedType::Tq2_0 => 12,
            RefusedType::Unknown => 13,
        }
    }

    pub fn of_rank(k: usize) -> (r: RefusedType)
        ensures
            r == RefusedType::at(k),
    {
        match k {
            0 => RefusedType::Bf16,
            1 => RefusedType::F64,
            2 => RefusedType::I16,
            3 => RefusedType::I32,
            4 => RefusedType::I64,
            5 => RefusedType::I8,
            6 => RefusedType::Mxfp4,
            7 => RefusedType::Q4_1,
            8 => RefusedType::Q5_1,
            9 => RefusedType::Q8_1,
            10 => RefusedType::Q8_K,
            11 => RefusedType::Tq1_0,
            12 => RefusedType::Tq2_0,
            _ => RefusedType::Unknown,
        }
    }

    pub fn name(&self) -> (r: &'static str)
        ensures
            r@ == self.label(),
    {
        match self {
            RefusedType::Bf16 => "BF16",
            RefusedType::F64 => "F64",
            RefusedType::I16 => "I16",
            RefusedType::I32 => "I32",
            RefusedType::I64 => "I64",
            RefusedType::I8 => "I8",
            RefusedType::Mxfp4 => "MXFP4",
            RefusedType::Q4_1 => "Q4_1",
            RefusedType::Q5_1 => "Q5_1",
            RefusedType::Q8_1 => "Q8_1",
            RefusedType::Q8_K => "Q8_K",
            RefusedType::Tq1_0 => "TQ1_0",
            RefusedType::Tq2_0 => "TQ2_0",
            RefusedType::Unknown => "unknown",
        }
    }
}

} // verus!
