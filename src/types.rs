//! Channel data types: scalar types, shapes and byte orders.
use vstd::prelude::*;

verus! {

/// Element type of a channel's samples.
#[derive(Clone, Copy, Debug, PartialEq, Eq, Structural)]
pub enum ScalarType {
    U8,
    U16,
    U32,
    U64,
    I8,
    I16,
    I32,
    I64,
    F32,
    F64,
    BOOL,
    STRING,
}

/// Shape of a channel's samples.
#[derive(Clone, Copy, Debug, PartialEq, Eq, Structural)]
pub enum Shape {
    Scalar,
    Wave(u32),
    Image(u32, u32),
}

/// Byte order of a channel's payload.
#[derive(Clone, Copy, Debug, PartialEq, Eq, Structural)]
pub enum ByteOrder {
    LE,
    BE,
}

/// The catalog's index of a scalar type.
pub open spec fn scalar_type_index(t: ScalarType) -> u8 {
    match t {
        ScalarType::U8 => 3,
        ScalarType::U16 => 5,
        ScalarType::U32 => 8,
        ScalarType::U64 => 10,
        ScalarType::I8 => 2,
        ScalarType::I16 => 4,
        ScalarType::I32 => 7,
        ScalarType::I64 => 9,
        ScalarType::F32 => 11,
        ScalarType::F64 => 12,
        ScalarType::BOOL => 0,
        ScalarType::STRING => 13,
    }
}

/// The dimensions of a shape as the catalog stores them.
pub open spec fn shape_dims(s: Shape) -> Seq<i32> {
    match s {
        Shape::Scalar => seq![],
        Shape::Wave(n) => seq![n as i32],
        Shape::Image(w, h) => seq![w as i32, h as i32],
    }
}

/// The compact shape-and-type tag of the `ts_msp` index.
pub open spec fn dtype_mark_spec(t: ScalarType, s: Shape) -> u32 {
    match s {
        Shape::Scalar => scalar_type_index(t) as u32,
        Shape::Wave(_) => (1000 + scalar_type_index(t)) as u32,
        Shape::Image(_, _) => (2000 + scalar_type_index(t)) as u32,
    }
}

impl ScalarType {
    pub fn index(&self) -> (r: u8)
        ensures
            r == scalar_type_index(*self),
    {
        match self {
            ScalarType::U8 => 3,
            ScalarType::U16 => 5,
            ScalarType::U32 => 8,
            ScalarType::U64 => 10,
            ScalarType::I8 => 2,
            ScalarType::I16 => 4,
            ScalarType::I32 => 7,
            ScalarType::I64 => 9,
            ScalarType::F32 => 11,
            ScalarType::F64 => 12,
            ScalarType::BOOL => 0,
            ScalarType::STRING => 13,
        }
    }

    pub fn to_scylla_i32(&self) -> (r: i32)
        ensures
            r == scalar_type_index(*self) as i32,
    {
        self.index() as i32
    }
}

impl Shape {
    pub fn to_scylla_vec(&self) -> (r: Vec<i32>)
        ensures
            r@ == shape_dims(*self),
    {
        match self {
            Shape::Scalar => Vec::new(),
            Shape::Wave(n) => {
                let mut v = Vec::new();
                v.push(*n as i32);
                proof {
                    assert(v@ =~= shape_dims(*self));
                }
                v
            },
            Shape::Image(w, h) => {
                let mut v = Vec::new();
                v.push(*w as i32);
                v.push(*h as i32);
                proof {
                    assert(v@ =~= shape_dims(*self));
                }
                v
            },
        }
    }
}

/// Scalars carry the type index; waves add 1000, images 2000.
pub fn dtype_mark(scalar_type: ScalarType, shape: Shape) -> (r: u32)
    ensures
        r == dtype_mark_spec(scalar_type, shape),
{
    let i = scalar_type.index() as u32;
    match shape {
        Shape::Scalar => i,
        Shape::Wave(_) => 1000 + i,
        Shape::Image(_, _) => 2000 + i,
    }
}

/// A channel as the catalog registers it.
pub struct ChannelDesc {
    pub name: String,
    pub scalar_type: ScalarType,
    pub shape: Shape,
    pub byte_order: ByteOrder,
}

} // verus!
