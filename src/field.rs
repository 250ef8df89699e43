//! Fields: the typed, sized units that a class layout is made of.

use vstd::prelude::*;

verus! {

/// Identity of a field; never used for ordering.
#[derive(Debug, Clone, Copy, PartialEq, Eq, Hash, Structural)]
pub struct FieldId(pub u64);

/// Hands out field ids in increasing order, so that none is given twice.
pub struct FieldIdAllocator {
    next: u64,
}

impl FieldIdAllocator {
    pub closed spec fn next_spec(&self) -> u64 {
        self.next
    }

    pub fn new() -> (r: FieldIdAllocator)
        ensures
            r.next_spec() == 0,
    {
        FieldIdAllocator { next: 0 }
    }

    /// The id that will be handed out next.
    pub fn next_value(&self) -> (r: u64)
        ensures
            r == self.next_spec(),
    {
        self.next
    }

    /// How many ids are left to hand out.
    pub fn available(&self) -> (r: u64)
        ensures
            r == u64::MAX - self.next_spec(),
    {
        u64::MAX - self.next
    }
}

impl FieldId {
    pub fn next_id(ids: &mut FieldIdAllocator) -> (r: FieldId)
        requires
            old(ids).next_spec() < u64::MAX,
        ensures
            r.0 == old(ids).next_spec(),
            final(ids).next_spec() == old(ids).next_spec() + 1,
    {
        let r = FieldId(ids.next);
        ids.next = ids.next + 1;
        r
    }
}

/// The closed set of field types, as a code generator names them.
#[derive(Debug, Clone, Copy, PartialEq, Eq, Structural)]
pub enum FieldTag {
    Bool,
    ClassInstance,
    ClassPointer,
    Float32,
    Float64,
    I8,
    I16,
    I32,
    I64,
    U8,
    U16,
    U32,
    U64,
    Hex8,
    Hex16,
    Hex32,
    Hex64,
    Utf8,
    Utf16,
    PtrUtf8,
    PtrUtf16,
    Vec2,
    Vec3,
    Vec4,
}

/// Where a field's value is being edited in place.
pub struct FieldMemoryEditingState {
    pub address: usize,
    pub buf: String,
    pub request_focus: bool,
}

/// A field's name, and the state of renaming it.
pub struct FieldNameState {
    pub name: String,
    pub name_before_edit: String,
    pub request_focus_name_edit: bool,
    pub editing: bool,
}

impl FieldNameState {
    /// Accepts the edited name: every name is accepted, and the name saved
    /// before the edit is dropped.
    pub fn validate_consume_name(&mut self) -> (r: Result<(), ()>)
        ensures
            r is Ok,
            final(self).name == old(self).name,
            final(self).name_before_edit@ == Seq::<char>::empty(),
            final(self).editing == old(self).editing,
            final(self).request_focus_name_edit == old(self).request_focus_name_edit,
    {
        self.name_before_edit = String::new();
        Ok(())
    }
}

pub struct FieldState {
    pub name_state: FieldNameState,
    pub memory_editing_state: Option<FieldMemoryEditingState>,
}

impl FieldState {
    pub fn new(name: String) -> (r: FieldState)
        ensures
            r.name_state.name == name,
            r.name_state.name_before_edit@ == Seq::<char>::empty(),
            !r.name_state.editing,
            r.memory_editing_state is None,
    {
        FieldState {
            name_state: FieldNameState {
                name,
                name_before_edit: String::new(),
                request_focus_name_edit: false,
                editing: false,
            },
            memory_editing_state: None,
        }
    }
}

/// Raw bytes shown in hex; the only field without a name, used as padding.
pub struct HexField {
    pub id: FieldId,
    /// 8, 16, 32 or 64.
    pub bits: usize,
}

pub struct BoolField {
    pub id: FieldId,
    pub state: FieldState,
}

pub struct IntField {
    pub id: FieldId,
    /// 8, 16, 32 or 64.
    pub bits: usize,
    pub signed: bool,
    pub state: FieldState,
}

pub struct FloatField {
    pub id: FieldId,
    /// 32 or 64.
    pub bits: usize,
    pub state: FieldState,
}

pub struct VectorField {
    pub id: FieldId,
    /// 2, 3 or 4 components of 4 bytes each.
    pub dims: usize,
    pub state: FieldState,
}

/// Text stored in place, UTF-8 or (when `wide`) UTF-16.
pub struct TextField {
    pub id: FieldId,
    pub wide: bool,
    pub char_count: usize,
    pub state: FieldState,
}

/// A pointer to text, UTF-8 or (when `wide`) UTF-16.
pub struct PointerTextField {
    pub id: FieldId,
    pub wide: bool,
    pub char_count: usize,
    pub state: FieldState,
}

/// A class embedded by value. `size` is that class's size when it was last
/// resolved, zero while the class is missing.
pub struct ClassInstanceField {
    pub id: FieldId,
    pub state: FieldState,
    pub class_id: usize,
    pub size: usize,
}

/// A pointer to an instance of a class.
pub struct ClassPointerField {
    pub id: FieldId,
    pub state: FieldState,
    pub class_id: usize,
}

pub enum Field {
    Hex(HexField),
    Bool(BoolField),
    Int(IntField),
    Float(FloatField),
    Vector(VectorField),
    Text(TextField),
    PointerText(PointerTextField),
    ClassInstance(ClassInstanceField),
    ClassPointer(ClassPointerField),
}

pub open spec fn valid_bits(b: usize) -> bool {
    b == 8 || b == 16 || b == 32 || b == 64
}

impl Field {
    pub open spec fn wf(self) -> bool {
        match self {
            Field::Hex(f) => valid_bits(f.bits),
            Field::Int(f) => valid_bits(f.bits),
            Field::Float(f) => f.bits == 32 || f.bits == 64,
            Field::Vector(f) => 2 <= f.dims <= 4,
            Field::Text(f) => f.char_count <= usize::MAX / 2,
            Field::PointerText(f) => f.char_count <= usize::MAX / 2,
            _ => true,
        }
    }

    pub open spec fn fid(self) -> FieldId {
        match self {
            Field::Hex(f) => f.id,
            Field::Bool(f) => f.id,
            Field::Int(f) => f.id,
            Field::Float(f) => f.id,
            Field::Vector(f) => f.id,
            Field::Text(f) => f.id,
            Field::PointerText(f) => f.id,
            Field::ClassInstance(f) => f.id,
            Field::ClassPointer(f) => f.id,
        }
    }

    /// Size in bytes.
    pub open spec fn size(self) -> int {
        match self {
            Field::Hex(f) => f.bits as int / 8,
            Field::Bool(_) => 1,
            Field::Int(f) => f.bits as int / 8,
            Field::Float(f) => f.bits as int / 8,
            Field::Vector(f) => f.dims as int * 4,
            Field::Text(f) => if f.wide {
                2 * (f.char_count as int)
            } else {
                f.char_count as int
            },
            Field::PointerText(_) => 8,
            Field::ClassInstance(f) => f.size as int,
            Field::ClassPointer(_) => 8,
        }
    }

    /// The name, for the kinds that carry one.
    pub open spec fn name_spec(self) -> Option<String> {
        match self {
            Field::Hex(_) => None,
            Field::Bool(f) => Some(f.state.name_state.name),
            Field::Int(f) => Some(f.state.name_state.name),
            Field::Float(f) => Some(f.state.name_state.name),
            Field::Vector(f) => Some(f.state.name_state.name),
            Field::Text(f) => Some(f.state.name_state.name),
            Field::PointerText(f) => Some(f.state.name_state.name),
            Field::ClassInstance(f) => Some(f.state.name_state.name),
            Field::ClassPointer(f) => Some(f.state.name_state.name),
        }
    }

    /// A field with a non-empty name is protected from implicit resizing.
    pub open spec fn named(self) -> bool {
        self.name_spec() matches Some(n) && n@.len() > 0
    }

    /// Whether the widths and counts are ones a field can have.
    pub fn wf_exec(&self) -> (r: bool)
        ensures
            r == self.wf(),
    {
        match self {
            Field::Hex(f) => f.bits == 8 || f.bits == 16 || f.bits == 32 || f.bits == 64,
            Field::Int(f) => f.bits == 8 || f.bits == 16 || f.bits == 32 || f.bits == 64,
            Field::Float(f) => f.bits == 32 || f.bits == 64,
            Field::Vector(f) => 2 <= f.dims && f.dims <= 4,
            Field::Text(f) => f.char_count <= usize::MAX / 2,
            Field::PointerText(f) => f.char_count <= usize::MAX / 2,
            _ => true,
        }
    }

    pub fn id(&self) -> (r: FieldId)
        ensures
            r == self.fid(),
    {
        match self {
            Field::Hex(f) => f.id,
            Field::Bool(f) => f.id,
            Field::Int(f) => f.id,
            Field::Float(f) => f.id,
            Field::Vector(f) => f.id,
            Field::Text(f) => f.id,
            Field::PointerText(f) => f.id,
            Field::ClassInstance(f) => f.id,
            Field::ClassPointer(f) => f.id,
        }
    }

    pub fn field_size(&self) -> (r: usize)
        requires
            self.wf(),
        ensures
            r == self.size(),
    {
        match self {
            Field::Hex(f) => f.bits / 8,
            Field::Bool(_) => 1,
            Field::Int(f) => f.bits / 8,
            Field::Float(f) => f.bits / 8,
            Field::Vector(f) => f.dims * 4,
            Field::Text(f) => if f.wide {
                2 * f.char_count
            } else {
                f.char_count
            },
            Field::PointerText(_) => 8,
            Field::ClassInstance(f) => f.size,
            Field::ClassPointer(_) => 8,
        }
    }

    fn state(&self) -> (r: Option<&FieldState>)
        ensures
            r matches Some(s) ==> self.name_spec() == Some(s.name_state.name),
            r is None ==> self.name_spec() is None,
    {
        match self {
            Field::Hex(_) => None,
            Field::Bool(f) => Some(&f.state),
            Field::Int(f) => Some(&f.state),
            Field::Float(f) => Some(&f.state),
            Field::Vector(f) => Some(&f.state),
            Field::Text(f) => Some(&f.state),
            Field::PointerText(f) => Some(&f.state),
            Field::ClassInstance(f) => Some(&f.state),
            Field::ClassPointer(f) => Some(&f.state),
        }
    }

    pub fn name(&self) -> (r: Option<String>)
        ensures
            r == self.name_spec(),
    {
        match self.state() {
            Some(s) => Some(s.name_state.name.clone()),
            None => None,
        }
    }

    pub fn had_name(&self) -> (r: bool)
        ensures
            r == self.named(),
    {
        match self.state() {
            Some(s) => s.name_state.name.as_str().unicode_len() > 0,
            None => false,
        }
    }

    /// Renames the field; a field of a kind without a name is left as it is.
    pub fn set_name(&mut self, new_name: String)
        ensures
            final(self).fid() == old(self).fid(),
            final(self).size() == old(self).size(),
            final(self).wf() == old(self).wf(),
            old(self).name_spec() is Some ==> final(self).name_spec() == Some(new_name),
            old(self).name_spec() is None ==> *final(self) == *old(self),
            (*final(self) is Hex) == (*old(self) is Hex),
    {
        match self {
            Field::Hex(_) => {},
            Field::Bool(f) => f.state.name_state.name = new_name,
            Field::Int(f) => f.state.name_state.name = new_name,
            Field::Float(f) => f.state.name_state.name = new_name,
            Field::Vector(f) => f.state.name_state.name = new_name,
            Field::Text(f) => f.state.name_state.name = new_name,
            Field::PointerText(f) => f.state.name_state.name = new_name,
            Field::ClassInstance(f) => f.state.name_state.name = new_name,
            Field::ClassPointer(f) => f.state.name_state.name = new_name,
        }
    }
}

impl Field {
    /// The generator's type tag of the field.
    pub fn field_tag(&self) -> (r: FieldTag)
        requires
            self.wf(),
        ensures
            r == tag_of(*self),
    {
        match self {
            Field::Hex(f) => if f.bits == 8 {
                FieldTag::Hex8
            } else if f.bits == 16 {
                FieldTag::Hex16
            } else if f.bits == 32 {
                FieldTag::Hex32
            } else {
                FieldTag::Hex64
            },
            Field::Bool(_) => FieldTag::Bool,
            Field::Int(f) => if f.signed {
                if f.bits == 8 {
                    FieldTag::I8
                } else if f.bits == 16 {
                    FieldTag::I16
                } else if f.bits == 32 {
                    FieldTag::I32
                } else {
                    FieldTag::I64
                }
            } else {
                if f.bits == 8 {
                    FieldTag::U8
                } else if f.bits == 16 {
                    FieldTag::U16
                } else if f.bits == 32 {
                    FieldTag::U32
                } else {
                    FieldTag::U64
                }
            },
            Field::Float(f) => if f.bits == 32 {
                FieldTag::Float32
            } else {
                FieldTag::Float64
            },
            Field::Vector(f) => if f.dims == 2 {
                FieldTag::Vec2
            } else if f.dims == 3 {
                FieldTag::Vec3
            } else {
                FieldTag::Vec4
            },
            Field::Text(f) => if f.wide {
                FieldTag::Utf16
            } else {
                FieldTag::Utf8
            },
            Field::PointerText(f) => if f.wide {
                FieldTag::PtrUtf16
            } else {
                FieldTag::PtrUtf8
            },
            Field::ClassInstance(_) => FieldTag::ClassInstance,
            Field::ClassPointer(_) => FieldTag::ClassPointer,
        }
    }
}

/// The tag of each field kind and width.
pub open spec fn tag_of(f: Field) -> FieldTag {
    match f {
        Field::Hex(h) => if h.bits == 8 {
            FieldTag::Hex8
        } else if h.bits == 16 {
            FieldTag::Hex16
        } else if h.bits == 32 {
            FieldTag::Hex32
        } else {
            FieldTag::Hex64
        },
        Field::Bool(_) => FieldTag::Bool,
        Field::Int(i) => if i.signed {
            if i.bits == 8 {
                FieldTag::I8
            } else if i.bits == 16 {
                FieldTag::I16
            } else if i.bits == 32 {
                FieldTag::I32
            } else {
                FieldTag::I64
            }
        } else {
            if i.bits == 8 {
                FieldTag::U8
            } else if i.bits == 16 {
                FieldTag::U16
            } else if i.bits == 32 {
                FieldTag::U32
            } else {
                FieldTag::U64
            }
        },
        Field::Float(x) => if x.bits == 32 {
            FieldTag::Float32
        } else {
            FieldTag::Float64
        },
        Field::Vector(v) => if v.dims == 2 {
            FieldTag::Vec2
        } else if v.dims == 3 {
            FieldTag::Vec3
        } else {
            FieldTag::Vec4
        },
        Field::Text(t) => if t.wide {
            FieldTag::Utf16
        } else {
            FieldTag::Utf8
        },
        Field::PointerText(t) => if t.wide {
            FieldTag::PtrUtf16
        } else {
            FieldTag::PtrUtf8
        },
        Field::ClassInstance(_) => FieldTag::ClassInstance,
        Field::ClassPointer(_) => FieldTag::ClassPointer,
    }
}

fn name_string(s: &str) -> (r: String)
    ensures
        r@ == s@,
{
    String::from_str(s)
}

impl HexField {
    /// `bits` bits of padding (8, 16, 32 or 64).
    pub fn new(ids: &mut FieldIdAllocator, bits: usize) -> (r: HexField)
        requires
            valid_bits(bits),
            old(ids).next_spec() < u64::MAX,
        ensures
            r.id.0 == old(ids).next_spec(),
            final(ids).next_spec() == old(ids).next_spec() + 1,
            r.bits == bits,
    {
        HexField { id: FieldId::next_id(ids), bits }
    }
}

impl BoolField {
    pub fn new(ids: &mut FieldIdAllocator, name: String) -> (r: BoolField)
        requires
            old(ids).next_spec() < u64::MAX,
        ensures
            r.id.0 == old(ids).next_spec(),
            final(ids).next_spec() == old(ids).next_spec() + 1,
            r.state.name_state.name == name,
    {
        BoolField { id: FieldId::next_id(ids), state: FieldState::new(name) }
    }

    /// A boolean named `bool`.
    pub fn default_named(ids: &mut FieldIdAllocator) -> (r: BoolField)
        requires
            old(ids).next_spec() < u64::MAX,
        ensures
            r.id.0 == old(ids).next_spec(),
            final(ids).next_spec() == old(ids).next_spec() + 1,
            r.state.name_state.name@ == "bool"@,
    {
        BoolField::new(ids, name_string("bool"))
    }
}

impl IntField {
    pub fn signed(ids: &mut FieldIdAllocator, bits: usize, name: String) -> (r: IntField)
        requires
            valid_bits(bits),
            old(ids).next_spec() < u64::MAX,
        ensures
            r.id.0 == old(ids).next_spec(),
            final(ids).next_spec() == old(ids).next_spec() + 1,
            r.bits == bits,
            r.signed,
            r.state.name_state.name == name,
    {
        IntField { id: FieldId::next_id(ids), bits, signed: true, state: FieldState::new(name) }
    }

    pub fn unsigned(ids: &mut FieldIdAllocator, bits: usize, name: String) -> (r: IntField)
        requires
            valid_bits(bits),
            old(ids).next_spec() < u64::MAX,
        ensures
            r.id.0 == old(ids).next_spec(),
            final(ids).next_spec() == old(ids).next_spec() + 1,
            r.bits == bits,
            !r.signed,
            r.state.name_state.name == name,
    {
        IntField { id: FieldId::next_id(ids), bits, signed: false, state: FieldState::new(name) }
    }

    /// A signed integer named after its type (`i8` .. `i64`).
    pub fn signed_default(ids: &mut FieldIdAllocator, bits: usize) -> (r: IntField)
        requires
            valid_bits(bits),
            old(ids).next_spec() < u64::MAX,
        ensures
            r.id.0 == old(ids).next_spec(),
            final(ids).next_spec() == old(ids).next_spec() + 1,
            r.bits == bits,
            r.signed,
            r.state.name_state.name@ == int_type_name(true, bits),
    {
        let name = if bits == 8 {
            name_string("i8")
        } else if bits == 16 {
            name_string("i16")
        } else if bits == 32 {
            name_string("i32")
        } else {
            name_string("i64")
        };
        IntField::signed(ids, bits, name)
    }

    /// An unsigned integer named after its type (`u8` .. `u64`).
    pub fn unsigned_default(ids: &mut FieldIdAllocator, bits: usize) -> (r: IntField)
        requires
            valid_bits(bits),
            old(ids).next_spec() < u64::MAX,
        ensures
            r.id.0 == old(ids).next_spec(),
            final(ids).next_spec() == old(ids).next_spec() + 1,
            r.bits == bits,
            !r.signed,
            r.state.name_state.name@ == int_type_name(false, bits),
    {
        let name = if bits == 8 {
            name_string("u8")
        } else if bits == 16 {
            name_string("u16")
        } else if bits == 32 {
            name_string("u32")
        } else {
            name_string("u64")
        };
        IntField::unsigned(ids, bits, name)
    }
}

/// The Rust name of an integer type.
pub open spec fn int_type_name(signed: bool, bits: usize) -> Seq<char> {
    if signed {
        if bits == 8 {
            "i8"@
        } else if bits == 16 {
            "i16"@
        } else if bits == 32 {
            "i32"@
        } else {
            "i64"@
        }
    } else {
        if bits == 8 {
            "u8"@
        } else if bits == 16 {
            "u16"@
        } else if bits == 32 {
            "u32"@
        } else {
            "u64"@
        }
    }
}

impl FloatField {
    /// A float of `bits` bits (32 or 64).
    pub fn new(ids: &mut FieldIdAllocator, bits: usize, name: String) -> (r: FloatField)
        requires
            bits == 32 || bits == 64,
            old(ids).next_spec() < u64::MAX,
        ensures
            r.id.0 == old(ids).next_spec(),
            final(ids).next_spec() == old(ids).next_spec() + 1,
            r.bits == bits,
            r.state.name_state.name == name,
    {
        FloatField { id: FieldId::next_id(ids), bits, state: FieldState::new(name) }
    }
}

impl VectorField {
    /// A vector of `dims` (2 to 4) 4-byte floats.
    pub fn new(ids: &mut FieldIdAllocator, dims: usize, name: String) -> (r: VectorField)
        requires
            2 <= dims <= 4,
            old(ids).next_spec() < u64::MAX,
        ensures
            r.id.0 == old(ids).next_spec(),
            final(ids).next_spec() == old(ids).next_spec() + 1,
            r.dims == dims,
            r.state.name_state.name == name,
    {
        VectorField { id: FieldId::next_id(ids), dims, state: FieldState::new(name) }
    }
}

impl TextField {
    /// Empty text, UTF-16 when `wide`.
    pub fn new(ids: &mut FieldIdAllocator, wide: bool, name: String) -> (r: TextField)
        requires
            old(ids).next_spec() < u64::MAX,
        ensures
            r.id.0 == old(ids).next_spec(),
            final(ids).next_spec() == old(ids).next_spec() + 1,
            r.wide == wide,
            r.char_count == 0,
            r.state.name_state.name == name,
    {
        TextField { id: FieldId::next_id(ids), wide, char_count: 0, state: FieldState::new(name) }
    }

    pub fn change_char_count(&mut self, new: usize)
        ensures
            final(self).char_count == new,
            final(self).id == old(self).id,
            final(self).wide == old(self).wide,
            final(self).state == old(self).state,
    {
        self.char_count = new;
    }
}

impl PointerTextField {
    /// A pointer to empty text, UTF-16 when `wide`.
    pub fn new(ids: &mut FieldIdAllocator, wide: bool, name: String) -> (r: PointerTextField)
        requires
            old(ids).next_spec() < u64::MAX,
        ensures
            r.id.0 == old(ids).next_spec(),
            final(ids).next_spec() == old(ids).next_spec() + 1,
            r.wide == wide,
            r.char_count == 0,
            r.state.name_state.name == name,
    {
        PointerTextField { id: FieldId::next_id(ids), wide, char_count: 0, state: FieldState::new(name) }
    }

    pub fn change_character_count(&mut self, new: usize)
        ensures
            final(self).char_count == new,
            final(self).id == old(self).id,
            final(self).wide == old(self).wide,
            final(self).state == old(self).state,
    {
        self.char_count = new;
    }
}

impl ClassInstanceField {
    /// An embedded instance of class `class_id`, named `Class`; its size is
    /// zero until it is resolved.
    pub fn new_with_class_id(ids: &mut FieldIdAllocator, class_id: usize) -> (r: ClassInstanceField)
        requires
            old(ids).next_spec() < u64::MAX,
        ensures
            r.id.0 == old(ids).next_spec(),
            final(ids).next_spec() == old(ids).next_spec() + 1,
            r.class_id == class_id,
            r.size == 0,
            r.state.name_state.name@ == "Class"@,
    {
        ClassInstanceField { id: FieldId::next_id(ids), state: FieldState::new(name_string("Class")), class_id, size: 0 }
    }
}

impl ClassPointerField {
    /// A pointer to class `class_id`, named `PtrClass`.
    pub fn new_with_class_id(ids: &mut FieldIdAllocator, class_id: usize) -> (r: ClassPointerField)
        requires
            old(ids).next_spec() < u64::MAX,
        ensures
            r.id.0 == old(ids).next_spec(),
            final(ids).next_spec() == old(ids).next_spec() + 1,
            r.class_id == class_id,
            r.state.name_state.name@ == "PtrClass"@,
    {
        ClassPointerField { id: FieldId::next_id(ids), state: FieldState::new(name_string("PtrClass")), class_id }
    }
}

/// `float32` or `float64`.
pub fn float_name(bits: usize) -> (r: String)
    ensures
        r@ == (if bits == 32 { "float32"@ } else { "float64"@ }),
{
    if bits == 32 {
        name_string("float32")
    } else {
        name_string("float64")
    }
}

/// `vec2`, `vec3` or `vec4`.
pub fn vector_name(dims: usize) -> (r: String)
    ensures
        r@ == (if dims == 2 { "vec2"@ } else if dims == 3 { "vec3"@ } else { "vec4"@ }),
{
    if dims == 2 {
        name_string("vec2")
    } else if dims == 3 {
        name_string("vec3")
    } else {
        name_string("vec4")
    }
}

/// `utf8`, `utf16`, `ptr-utf8` or `ptr-utf16`.
pub fn text_name(wide: bool, pointer: bool) -> (r: String)
    ensures
        r@ == (if pointer {
            if wide { "ptr-utf16"@ } else { "ptr-utf8"@ }
        } else {
            if wide { "utf16"@ } else { "utf8"@ }
        }),
{
    if pointer {
        if wide {
            name_string("ptr-utf16")
        } else {
            name_string("ptr-utf8")
        }
    } else {
        if wide {
            name_string("utf16")
        } else {
            name_string("utf8")
        }
    }
}

} // verus!
