//! Turning a class layout into source text.

use vstd::prelude::*;
use crate::field::FieldTag;

verus! {

/// One call made on a generator.
pub enum GenCall {
    BeginClass(Seq<char>),
    AddField(Seq<char>, FieldTag, usize, Seq<char>),
    AddOffset(usize),
    EndClass,
}

/// Receives a class layout, field by field, and builds some output of it.
pub trait Generator {
    /// The calls received so far.
    spec fn calls(&self) -> Seq<GenCall>;

    fn begin_class(&mut self, name: &str)
        ensures
            final(self).calls() == old(self).calls().push(GenCall::BeginClass(name@)),
    ;

    fn end_class(&mut self)
        ensures
            final(self).calls() == old(self).calls().push(GenCall::EndClass),
    ;

    fn add_field(&mut self, name: &str, tag: FieldTag, field_size: usize, metadata: &str)
        ensures
            final(self).calls() == old(self).calls().push(GenCall::AddField(name@, tag, field_size, metadata@)),
    ;

    fn add_offset(&mut self, offset: usize)
        ensures
            final(self).calls() == old(self).calls().push(GenCall::AddOffset(offset)),
    ;

    fn finilize(&mut self) -> String;
}

/// The digit `d` (below 16) in hexadecimal, upper or lower case.
pub open spec fn hex_char(d: nat, upper: bool) -> char {
    if d < 10 {
        (('0' as nat) + d) as char
    } else if upper {
        (('A' as nat) + d - 10) as char
    } else {
        (('a' as nat) + d - 10) as char
    }
}

/// `n` in hexadecimal, without leading zeros.
pub open spec fn hex_digits(n: nat, upper: bool) -> Seq<char>
    decreases n,
{
    if n < 16 {
        seq![hex_char(n, upper)]
    } else {
        hex_digits(n / 16, upper) + seq![hex_char(n % 16, upper)]
    }
}

/// `n` in decimal, without leading zeros.
pub open spec fn decimal_digits(n: nat) -> Seq<char>
    decreases n,
{
    if n < 10 {
        seq![(('0' as nat) + n) as char]
    } else {
        decimal_digits(n / 10) + seq![(('0' as nat) + n % 10) as char]
    }
}

/// Relies on `format!("{:#X}")`: `0x` and the upper-case hex digits.
#[verifier::external_body]
pub(crate) fn hex_upper_prefixed(n: usize) -> (r: String)
    ensures
        r@ == "0x"@ + hex_digits(n as nat, true),
{
    format!("{n:#X}")
}

/// Relies on `format!("{:x}")`: the lower-case hex digits.
#[verifier::external_body]
fn hex_lower(n: usize) -> (r: String)
    ensures
        r@ == hex_digits(n as nat, false),
{
    format!("{n:x}")
}

/// Relies on `format!("{}")` for an unsigned integer: its decimal digits.
#[verifier::external_body]
pub fn decimal(n: usize) -> (r: String)
    ensures
        r@ == decimal_digits(n as nat),
{
    format!("{n}")
}

fn text(s: &str) -> (r: String)
    ensures
        r@ == s@,
{
    String::from_str(s)
}

/// The Rust type written for a field of tag `tag`; `metadata` is the class
/// name for nested classes and the character count for text.
pub open spec fn type_text(tag: FieldTag, metadata: Seq<char>) -> Seq<char> {
    match tag {
        FieldTag::Bool => "bool"@,
        FieldTag::ClassInstance => metadata,
        FieldTag::ClassPointer => "&mut "@ + metadata,
        FieldTag::Float32 => "f32"@,
        FieldTag::Float64 => "f64"@,
        FieldTag::I8 => "i8"@,
        FieldTag::I16 => "i16"@,
        FieldTag::I32 => "i32"@,
        FieldTag::I64 => "i64"@,
        FieldTag::U8 => "u8"@,
        FieldTag::U16 => "u16"@,
        FieldTag::U32 => "u32"@,
        FieldTag::U64 => "u64"@,
        FieldTag::Hex8 => "[u8; 1]"@,
        FieldTag::Hex16 => "[u8; 2]"@,
        FieldTag::Hex32 => "[u8; 4]"@,
        FieldTag::Hex64 => "[u8; 8]"@,
        FieldTag::Utf8 => "[u8; "@ + metadata + "]"@,
        FieldTag::Utf16 => "[u16; "@ + metadata + "]"@,
        FieldTag::PtrUtf8 => "&mut [u8; "@ + metadata + "]"@,
        FieldTag::PtrUtf16 => "&mut [u16; "@ + metadata + "]"@,
        FieldTag::Vec2 => "Vec2"@,
        FieldTag::Vec3 => "Vec3"@,
        FieldTag::Vec4 => "Vec4"@,
    }
}

fn wrapped(before: &str, metadata: &str, after: &str) -> (r: String)
    ensures
        r@ == before@ + metadata@ + after@,
{
    let mut r = String::from_str(before);
    r.append(metadata);
    r.append(after);
    r
}

pub fn tag_to_type(tag: FieldTag, metadata: &str) -> (r: String)
    ensures
        r@ == type_text(tag, metadata@),
{
    proof {
        reveal_strlit("");
        assert(("&mut "@ + metadata@ + ""@) =~= "&mut "@ + metadata@);
    }
    match tag {
        FieldTag::Bool => text("bool"),
        FieldTag::ClassInstance => text(metadata),
        FieldTag::ClassPointer => wrapped("&mut ", metadata, ""),
        FieldTag::Float32 => text("f32"),
        FieldTag::Float64 => text("f64"),
        FieldTag::I8 => text("i8"),
        FieldTag::I16 => text("i16"),
        FieldTag::I32 => text("i32"),
        FieldTag::I64 => text("i64"),
        FieldTag::U8 => text("u8"),
        FieldTag::U16 => text("u16"),
        FieldTag::U32 => text("u32"),
        FieldTag::U64 => text("u64"),
        FieldTag::Hex8 => text("[u8; 1]"),
        FieldTag::Hex16 => text("[u8; 2]"),
        FieldTag::Hex32 => text("[u8; 4]"),
        FieldTag::Hex64 => text("[u8; 8]"),
        FieldTag::Utf8 => wrapped("[u8; ", metadata, "]"),
        FieldTag::Utf16 => wrapped("[u16; ", metadata, "]"),
        FieldTag::PtrUtf8 => wrapped("&mut [u8; ", metadata, "]"),
        FieldTag::PtrUtf16 => wrapped("&mut [u16; ", metadata, "]"),
        FieldTag::Vec2 => text("Vec2"),
        FieldTag::Vec3 => text("Vec3"),
        FieldTag::Vec4 => text("Vec4"),
    }
}

/// The line that declares `len` bytes of padding at offset `at`.
pub open spec fn pad_line(at: nat, len: nat) -> Seq<char> {
    "    _pad_at_"@ + "0x"@ + hex_digits(at, true) + ": [u8; 0x"@ + hex_digits(len, false) + "], // "@ + "0x"@
        + hex_digits(at, true) + "\n"@
}

/// The line that declares a field.
pub open spec fn field_line(name: Seq<char>, ty: Seq<char>, at: nat) -> Seq<char> {
    "    pub "@ + name + ": "@ + ty + ", // "@ + "0x"@ + hex_digits(at, true) + "\n"@
}

/// Writes Rust `#[repr(C)]` structs; padding between fields becomes byte
/// arrays named after their offset.
pub struct RustGenerator {
    pub text: String,
    pub last_offset: usize,
    pub offset: usize,
    pub stack_last_add_offset: usize,
    /// The calls received so far.
    pub history: Ghost<Seq<GenCall>>,
}

impl RustGenerator {
    pub fn new() -> (r: RustGenerator)
        ensures
            r.text@ == "// Generated by MakeClass 1.0\n\n"@,
            r.offset == 0,
            r.last_offset == 0,
            r.stack_last_add_offset == 0,
    {
        RustGenerator {
            text: text("// Generated by MakeClass 1.0\n\n"),
            last_offset: 0,
            offset: 0,
            stack_last_add_offset: 0,
            history: Ghost(Seq::empty()),
        }
    }

    fn push_pad_line(&mut self, at: usize, len: usize)
        ensures
            final(self).text@ == old(self).text@ + pad_line(at as nat, len as nat),
            final(self).offset == old(self).offset,
            final(self).last_offset == old(self).last_offset,
            final(self).stack_last_add_offset == old(self).stack_last_add_offset,
            final(self).history == old(self).history,
    {
        let a = hex_upper_prefixed(at);
        let l = hex_lower(len);
        self.text.append("    _pad_at_");
        self.text.append(a.as_str());
        self.text.append(": [u8; 0x");
        self.text.append(l.as_str());
        self.text.append("], // ");
        self.text.append(a.as_str());
        self.text.append("\n");
        proof {
            assert(self.text@ =~= old(self).text@ + pad_line(at as nat, len as nat));
        }
    }
}

impl Generator for RustGenerator {
    open spec fn calls(&self) -> Seq<GenCall> {
        self.history@
    }

    fn begin_class(&mut self, name: &str)
        ensures
            final(self).text@ == old(self).text@ + "#[repr(C)]\npub struct "@ + name@ + " {\n"@,
            final(self).offset == old(self).offset,
            final(self).last_offset == old(self).last_offset,
            final(self).stack_last_add_offset == old(self).stack_last_add_offset,
    {
        self.text.append("#[repr(C)]\npub struct ");
        self.text.append(name);
        self.text.append(" {\n");
        proof {
            self.history@ = self.history@.push(GenCall::BeginClass(name@));
        }
    }

    fn end_class(&mut self)
        ensures
            final(self).text@ == old(self).text@ + (if old(self).stack_last_add_offset != 0
                && old(self).stack_last_add_offset <= old(self).offset {
                pad_line((old(self).offset - old(self).stack_last_add_offset) as nat, old(self).stack_last_add_offset as nat)
            } else {
                Seq::<char>::empty()
            }) + "}\n\n"@,
            final(self).offset == 0,
            final(self).last_offset == 0,
    {
        if self.stack_last_add_offset != 0 && self.stack_last_add_offset <= self.offset {
            let at = self.offset - self.stack_last_add_offset;
            let len = self.stack_last_add_offset;
            self.push_pad_line(at, len);
            self.stack_last_add_offset = 0;
        } else {
            assert(self.text@ =~= old(self).text@ + Seq::<char>::empty());
        }
        self.text.append("}\n\n");
        self.offset = 0;
        self.last_offset = 0;
        proof {
            self.history@ = self.history@.push(GenCall::EndClass);
        }
    }

    fn add_field(&mut self, name: &str, tag: FieldTag, size: usize, metadata: &str)
        ensures
            final(self).text@ == old(self).text@ + (if old(self).offset != old(self).last_offset
                && old(self).last_offset <= old(self).offset {
                pad_line(old(self).offset as nat, (old(self).offset - old(self).last_offset) as nat)
            } else {
                Seq::<char>::empty()
            }) + field_line(name@, type_text(tag, metadata@), old(self).offset as nat),
            final(self).offset == (if old(self).offset + size <= usize::MAX { old(self).offset + size } else { usize::MAX as int }),
            final(self).last_offset == final(self).offset,
            final(self).stack_last_add_offset == 0,
    {
        if self.offset != self.last_offset && self.last_offset <= self.offset {
            let at = self.offset;
            let len = self.offset - self.last_offset;
            self.push_pad_line(at, len);
        } else {
            assert(self.text@ =~= old(self).text@ + Seq::<char>::empty());
        }
        let ghost mid = self.text@;
        let ty = tag_to_type(tag, metadata);
        let at = hex_upper_prefixed(self.offset);
        self.text.append("    pub ");
        self.text.append(name);
        self.text.append(": ");
        self.text.append(ty.as_str());
        self.text.append(", // ");
        self.text.append(at.as_str());
        self.text.append("\n");
        proof {
            assert(self.text@ =~= mid + field_line(name@, type_text(tag, metadata@), old(self).offset as nat));
            assert(mid == old(self).text@ + (if old(self).offset != old(self).last_offset
                && old(self).last_offset <= old(self).offset {
                pad_line(old(self).offset as nat, (old(self).offset - old(self).last_offset) as nat)
            } else {
                Seq::<char>::empty()
            }));
        }
        self.offset = self.offset.saturating_add(size);
        self.last_offset = self.offset;
        self.stack_last_add_offset = 0;
        proof {
            self.history@ = self.history@.push(GenCall::AddField(name@, tag, size, metadata@));
        }
    }

    fn add_offset(&mut self, offset: usize)
        ensures
            final(self).text == old(self).text,
            final(self).last_offset == old(self).last_offset,
            final(self).offset == (if old(self).offset + offset <= usize::MAX { old(self).offset + offset } else { usize::MAX as int }),
            final(self).stack_last_add_offset == (if old(self).stack_last_add_offset + offset <= usize::MAX {
                old(self).stack_last_add_offset + offset
            } else {
                usize::MAX as int
            }),
    {
        self.offset = self.offset.saturating_add(offset);
        self.stack_last_add_offset = self.stack_last_add_offset.saturating_add(offset);
        proof {
            self.history@ = self.history@.push(GenCall::AddOffset(offset));
        }
    }

    fn finilize(&mut self) -> (r: String)
        ensures
            r == old(self).text,
            final(self).text@ == Seq::<char>::empty(),
    {
        let t = self.text.clone();
        self.text = String::new();
        t
    }
}

/// One field of a class as a project file keeps it.
pub struct FieldRecord {
    pub name: String,
    pub offset: usize,
    pub field_size: usize,
    pub tag: FieldTag,
    pub metadata: String,
}

/// One class as a project file keeps it.
pub struct ClassRecord {
    pub name: String,
    pub fields: Vec<FieldRecord>,
}

/// Collects a record of every field, with its offset in its class.
pub struct RecordGenerator {
    pub classes: Vec<ClassRecord>,
    pub offset: usize,
    /// The calls received so far.
    pub history: Ghost<Seq<GenCall>>,
}

impl RecordGenerator {
    pub fn new() -> (r: RecordGenerator)
        ensures
            r.classes@.len() == 0,
            r.offset == 0,
            r.calls() == Seq::<GenCall>::empty(),
    {
        RecordGenerator { classes: Vec::new(), offset: 0, history: Ghost(Seq::empty()) }
    }
}

impl Generator for RecordGenerator {
    open spec fn calls(&self) -> Seq<GenCall> {
        self.history@
    }

    fn begin_class(&mut self, name: &str)
        ensures
            final(self).classes@.len() == old(self).classes@.len() + 1,
            final(self).classes@.last().name@ == name@,
            final(self).classes@.last().fields@.len() == 0,
            final(self).offset == old(self).offset,
    {
        self.classes.push(ClassRecord { name: String::from_str(name), fields: Vec::new() });
        proof {
            self.history@ = self.history@.push(GenCall::BeginClass(name@));
        }
    }

    fn end_class(&mut self)
        ensures
            final(self).offset == 0,
            final(self).classes@ == old(self).classes@,
    {
        self.offset = 0;
        proof {
            self.history@ = self.history@.push(GenCall::EndClass);
        }
    }

    fn add_field(&mut self, name: &str, tag: FieldTag, size: usize, metadata: &str)
        ensures
            final(self).classes@.len() == old(self).classes@.len(),
            old(self).classes@.len() > 0 ==> final(self).classes@.last().fields@.len() == old(self).classes@.last().fields@.len() + 1
                && final(self).classes@.last().fields@.last().offset == old(self).offset
                && final(self).classes@.last().fields@.last().field_size == size
                && final(self).classes@.last().fields@.last().tag == tag
                && final(self).classes@.last().fields@.last().name@ == name@
                && final(self).classes@.last().fields@.last().metadata@ == metadata@,
            final(self).offset == (if old(self).offset + size <= usize::MAX { old(self).offset + size } else { usize::MAX as int }),
    {
        match self.classes.pop() {
            Some(mut c) => {
                c.fields.push(FieldRecord {
                    name: String::from_str(name),
                    offset: self.offset,
                    field_size: size,
                    tag,
                    metadata: String::from_str(metadata),
                });
                self.classes.push(c);
            },
            None => {},
        }
        self.offset = self.offset.saturating_add(size);
        proof {
            self.history@ = self.history@.push(GenCall::AddField(name@, tag, size, metadata@));
        }
    }

    fn add_offset(&mut self, offset: usize)
        ensures
            final(self).classes@ == old(self).classes@,
            final(self).offset == (if old(self).offset + offset <= usize::MAX { old(self).offset + offset } else { usize::MAX as int }),
    {
        self.offset = self.offset.saturating_add(offset);
        proof {
            self.history@ = self.history@.push(GenCall::AddOffset(offset));
        }
    }

    fn finilize(&mut self) -> (r: String)
        ensures
            r@ == Seq::<char>::empty(),
    {
        String::new()
    }
}

} // verus!
