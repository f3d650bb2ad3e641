use vstd::prelude::*;

verus! {

// The in-memory model of a container file: a version, a type table, named
// instances with their raw payload buffers, a hash list, and a description.
// Names and string-like data are kept as byte vectors exactly as they appear
// on disk; each model type has a spec-level view over sequences.

/// The container version; only version four is defined.
#[derive(Clone, Copy, Debug, PartialEq, Eq, Structural)]
pub enum AdfVersion {
    V4,
}

/// The shape of a type: the eleven primitive kinds of the format.
#[derive(Clone, Copy, Debug, PartialEq, Eq, Structural)]
pub enum AdfPrimitive {
    Scalar,
    Structure,
    Pointer,
    Array,
    InlineArray,
    String,
    Recursive,
    Bitfield,
    Enumeration,
    StringHash,
    Deferred,
}

/// How a scalar's bytes are to be interpreted.
#[derive(Clone, Copy, Debug, PartialEq, Eq, Structural)]
pub enum AdfScalarType {
    Signed,
    Unsigned,
    Float,
}

/// Type flag bits stored in the sixteen-bit flag word.
pub const ADF_FLAG_POD_READ: u16 = 1;

pub const ADF_FLAG_POD_WRITE: u16 = 2;

pub const ADF_FLAG_FINALIZE: u16 = 0x8000;

/// All flag bits the format defines; unknown bits are dropped on read.
pub const ADF_FLAG_MASK: u16 = 0x8003;

/// A member's position: a byte offset (24 bits on disk) and, for bitfield
/// members, a bit offset within the addressed scalar.
#[derive(Clone, Copy, Debug, PartialEq, Eq, Structural)]
pub struct AdfMemberOffsets {
    pub byte_offset: u32,
    pub bit_offset: u8,
}

impl AdfMemberOffsets {
    /// The packed 32-bit form: low 24 bits byte offset, high 8 bits bit offset.
    pub open spec fn spec_packed(self) -> u32 {
        (self.byte_offset % 0x1000000 + self.bit_offset * 0x1000000) as u32
    }

    pub open spec fn wf(self) -> bool {
        self.byte_offset < 0x1000000
    }

    pub fn packed(self) -> (r: u32)
        ensures
            r == self.spec_packed(),
    {
        self.byte_offset % 0x1000000 + self.bit_offset as u32 * 0x1000000
    }

    pub fn unpack(packed: u32) -> (r: AdfMemberOffsets)
        ensures
            r.byte_offset == packed % 0x1000000,
            r.bit_offset == packed / 0x1000000,
            r.wf(),
            r.spec_packed() == packed,
    {
        let r = AdfMemberOffsets { byte_offset: packed % 0x1000000, bit_offset: (packed
            / 0x1000000) as u8 };
        proof {
            vstd::arithmetic::div_mod::lemma_fundamental_div_mod(packed as int, 0x1000000);
        }
        r
    }
}

/// A member's default value: none, an inline 64-bit literal, or a reference
/// to another instance of the same file, held as an index into the file's
/// instance list.
#[derive(Clone, Copy, Debug, PartialEq, Eq, Structural)]
pub enum AdfMemberValue {
    UninitializedValue,
    InlineValue(u64),
    InstanceValue(usize),
}

/// One member of a structure type.
#[derive(Clone, Debug, PartialEq)]
pub struct AdfMember {
    pub name: Vec<u8>,
    pub type_hash: u32,
    pub alignment: u32,
    pub offsets: AdfMemberOffsets,
    pub value: AdfMemberValue,
}

pub struct AdfMemberView {
    pub name: Seq<u8>,
    pub type_hash: u32,
    pub alignment: u32,
    pub offsets: AdfMemberOffsets,
    pub value: AdfMemberValue,
}

impl View for AdfMember {
    type V = AdfMemberView;

    open spec fn view(&self) -> AdfMemberView {
        AdfMemberView {
            name: self.name@,
            type_hash: self.type_hash,
            alignment: self.alignment,
            offsets: self.offsets,
            value: self.value,
        }
    }
}

/// One entry of an enumeration type: a name and a signed 32-bit value.
#[derive(Clone, Debug, PartialEq)]
pub struct AdfEnum {
    pub name: Vec<u8>,
    pub value: i32,
}

pub struct AdfEnumView {
    pub name: Seq<u8>,
    pub value: i32,
}

impl View for AdfEnum {
    type V = AdfEnumView;

    open spec fn view(&self) -> AdfEnumView {
        AdfEnumView { name: self.name@, value: self.value }
    }
}

/// A type definition from a file's type table.
#[derive(Clone, Debug, PartialEq)]
pub struct AdfType {
    pub primitive: AdfPrimitive,
    pub size: u32,
    pub alignment: u32,
    pub type_hash: u32,
    pub name: Vec<u8>,
    pub flags: u16,
    pub scalar_type: AdfScalarType,
    pub element_type_hash: u32,
    pub element_length: u32,
    pub members: Vec<AdfMember>,
    pub enumerations: Vec<AdfEnum>,
}

pub struct AdfTypeView {
    pub primitive: AdfPrimitive,
    pub size: u32,
    pub alignment: u32,
    pub type_hash: u32,
    pub name: Seq<u8>,
    pub flags: u16,
    pub scalar_type: AdfScalarType,
    pub element_type_hash: u32,
    pub element_length: u32,
    pub members: Seq<AdfMemberView>,
    pub enumerations: Seq<AdfEnumView>,
}

impl View for AdfType {
    type V = AdfTypeView;

    open spec fn view(&self) -> AdfTypeView {
        AdfTypeView {
            primitive: self.primitive,
            size: self.size,
            alignment: self.alignment,
            type_hash: self.type_hash,
            name: self.name@,
            flags: self.flags,
            scalar_type: self.scalar_type,
            element_type_hash: self.element_type_hash,
            element_length: self.element_length,
            members: self.members@.map_values(|m: AdfMember| m@),
            enumerations: self.enumerations@.map_values(|e: AdfEnum| e@),
        }
    }
}

impl AdfTypeView {
    /// Only the kind-specific field lists the format defines may be filled:
    /// members belong to structures, entries to enumerations.
    pub open spec fn wf(self) -> bool {
        &&& (self.primitive != AdfPrimitive::Structure ==> self.members.len() == 0)
        &&& (self.primitive != AdfPrimitive::Enumeration ==> self.enumerations.len() == 0)
        &&& forall|i: int| 0 <= i < self.members.len() ==> (#[trigger] self.members[i]).offsets.wf()
    }
}

/// A named, typed payload buffer. `alignment` records the alignment the
/// buffer was created with; buffers read from a file use the on-disk
/// instance alignment of 128.
#[derive(Clone, Debug, PartialEq)]
pub struct AdfInstance {
    pub name: Vec<u8>,
    pub type_hash: u32,
    pub buffer: Vec<u8>,
    pub alignment: u32,
}

pub struct AdfInstanceView {
    pub name: Seq<u8>,
    pub type_hash: u32,
    pub buffer: Seq<u8>,
    pub alignment: u32,
}

impl View for AdfInstance {
    type V = AdfInstanceView;

    open spec fn view(&self) -> AdfInstanceView {
        AdfInstanceView {
            name: self.name@,
            type_hash: self.type_hash,
            buffer: self.buffer@,
            alignment: self.alignment,
        }
    }
}

/// Why a reference could not be written or resolved.
#[derive(Clone, Copy, Debug, PartialEq, Eq, Structural)]
pub enum AdfReferenceError {
    InvalidIdentity(u64),
    CollectionFailure,
}

/// Why an instance record was rejected on read.
#[derive(Clone, Copy, Debug, PartialEq, Eq, Structural)]
pub enum AdfInstanceError {
    InvalidNameHash(u32),
    BufferUnavailable,
}

/// Why a whole-file write was refused.
#[derive(Clone, Copy, Debug, PartialEq, Eq, Structural)]
pub enum AdfWriteError {
    /// A pooled string is longer than 255 bytes, or a table is longer than
    /// its 32-bit length prefix allows.
    LengthOverflow,
    /// A buffer, an offset or the file size does not fit a 32-bit field.
    SizeOverflow,
    /// An instance buffer records an alignment of zero.
    InvalidAlignment,
    /// A member's default value points outside the file's instance list.
    Reference(AdfReferenceError),
}

/// Why a byte string was rejected as a container file.
#[derive(Clone, Copy, Debug, PartialEq, Eq, Structural)]
pub enum AdfParseError {
    /// The bytes end before a field or a table that the header promises.
    Truncated,
    /// The four magic bytes are wrong.
    BadMagic,
    /// The version word is not four.
    BadVersion,
    /// A pooled string does not match its recorded length; the payload is
    /// the file position where the string starts.
    StringLengthMismatch(u64),
    /// A stored string-pool index is out of range.
    Reference(AdfReferenceError),
    /// A stored instance name hash does not match the stored name.
    Instance(AdfInstanceError),
    /// A primitive tag beyond the eleven defined kinds.
    BadPrimitive,
    /// A scalar-type tag beyond the three defined kinds.
    BadScalarType,
    /// A member default-value tag beyond the three defined kinds, or a
    /// nonzero payload under the uninitialized tag.
    BadMemberValue,
}

/// Why a length-prefixed list could not be read or written: its length
/// does not fit the prefix.
#[derive(Clone, Copy, Debug, PartialEq, Eq, Structural)]
pub enum LengthError {
    InvalidLength,
}

/// Why the typed pathway's reader or writer stopped.
#[derive(Clone, Copy, Debug, PartialEq, Eq, Structural)]
pub enum AdfReadWriteError {
    /// The bytes end before the field being read.
    Truncated,
    /// A shared indirection was revisited as a different type.
    ReferenceError(u64),
    /// An offset does not satisfy the required alignment.
    Alignment(u64),
}

/// The alignment given to instance buffers read from a file.
pub const ADF_INSTANCE_ALIGNMENT: u32 = 128;

/// A whole container file.
#[derive(Clone, Debug, PartialEq)]
pub struct AdfFile {
    pub version: AdfVersion,
    pub instances: Vec<AdfInstance>,
    pub types: Vec<AdfType>,
    pub hashes: Vec<u32>,
    pub description: Vec<u8>,
}

pub struct AdfFileView {
    pub version: AdfVersion,
    pub instances: Seq<AdfInstanceView>,
    pub types: Seq<AdfTypeView>,
    pub hashes: Seq<u32>,
    pub description: Seq<u8>,
}

impl View for AdfFile {
    type V = AdfFileView;

    open spec fn view(&self) -> AdfFileView {
        AdfFileView {
            version: self.version,
            instances: self.instances@.map_values(|i: AdfInstance| i@),
            types: self.types@.map_values(|t: AdfType| t@),
            hashes: self.hashes@,
            description: self.description@,
        }
    }
}

impl AdfFileView {
    /// What every file read from disk satisfies, and what the writer keeps:
    /// kind-specific field lists only, in-range instance references, and
    /// buffer alignments of at least one.
    pub open spec fn wf(self) -> bool {
        &&& forall|i: int| 0 <= i < self.types.len() ==> (#[trigger] self.types[i]).wf()
        &&& forall|i: int, j: int|
            0 <= i < self.types.len() && 0 <= j < self.types[i].members.len()
                ==> match (#[trigger] self.types[i].members[j]).value {
                AdfMemberValue::InstanceValue(idx) => idx < self.instances.len(),
                _ => true,
            }
        &&& forall|i: int|
            0 <= i < self.instances.len() ==> (#[trigger] self.instances[i]).alignment >= 1
    }
}

impl Default for AdfFile {
    /// An empty file: no types, no instances, no hashes, empty description.
    fn default() -> (r: AdfFile)
        ensures
            r@.version == AdfVersion::V4,
            r@.instances =~= Seq::<AdfInstanceView>::empty(),
            r@.types =~= Seq::<AdfTypeView>::empty(),
            r@.hashes =~= Seq::<u32>::empty(),
            r@.description =~= Seq::<u8>::empty(),
            r@.wf(),
    {
        AdfFile {
            version: AdfVersion::V4,
            instances: Vec::new(),
            types: Vec::new(),
            hashes: Vec::new(),
            description: Vec::new(),
        }
    }
}


/// First type with the given hash, or the list's length.
pub open spec fn spec_type_index_by_hash(ts: Seq<AdfTypeView>, h: u32, j: int) -> int
    decreases ts.len() - j,
{
    if j < 0 || j >= ts.len() {
        ts.len() as int
    } else if ts[j].type_hash == h {
        j
    } else {
        spec_type_index_by_hash(ts, h, j + 1)
    }
}

/// First type with the given name, or the list's length.
pub open spec fn spec_type_index_by_name(ts: Seq<AdfTypeView>, name: Seq<u8>, j: int) -> int
    decreases ts.len() - j,
{
    if j < 0 || j >= ts.len() {
        ts.len() as int
    } else if ts[j].name == name {
        j
    } else {
        spec_type_index_by_name(ts, name, j + 1)
    }
}

/// First instance with the given name and type hash, or the list's length.
pub open spec fn spec_find_named_instance(
    insts: Seq<AdfInstanceView>,
    name: Seq<u8>,
    type_hash: u32,
    j: int,
) -> int
    decreases insts.len() - j,
{
    if j < 0 || j >= insts.len() {
        insts.len() as int
    } else if insts[j].type_hash == type_hash && insts[j].name == name {
        j
    } else {
        spec_find_named_instance(insts, name, type_hash, j + 1)
    }
}

impl AdfFile {
    /// First type in the file's own table with the given hash, in
    /// declaration order.
    pub fn get_type_by_hash(&self, type_hash: u32) -> (r: Option<&AdfType>)
        ensures
            match r {
                Some(t) => {
                    let j = spec_type_index_by_hash(self@.types, type_hash, 0);
                    j < self@.types.len() && self@.types[j] == t@
                },
                None => spec_type_index_by_hash(self@.types, type_hash, 0) == self@.types.len(),
            },
    {
        let ghost tv = self@.types;
        let n = self.types.len();
        let mut j: usize = 0;
        while j < n
            invariant
                j <= n,
                n == self.types@.len(),
                tv == self@.types,
                spec_type_index_by_hash(tv, type_hash, 0) == spec_type_index_by_hash(
                    tv,
                    type_hash,
                    j as int,
                ),
            decreases n - j,
        {
            assert(tv[j as int] == self.types@[j as int]@);
            if self.types[j].type_hash == type_hash {
                return Some(&self.types[j]);
            }
            j = j + 1;
        }
        None
    }

    /// First type in the file's own table with the given name, in
    /// declaration order.
    pub fn get_type_by_name(&self, name: &[u8]) -> (r: Option<&AdfType>)
        ensures
            match r {
                Some(t) => {
                    let j = spec_type_index_by_name(self@.types, name@, 0);
                    j < self@.types.len() && self@.types[j] == t@
                },
                None => spec_type_index_by_name(self@.types, name@, 0) == self@.types.len(),
            },
    {
        let ghost tv = self@.types;
        let n = self.types.len();
        let mut j: usize = 0;
        while j < n
            invariant
                j <= n,
                n == self.types@.len(),
                tv == self@.types,
                spec_type_index_by_name(tv, name@, 0) == spec_type_index_by_name(
                    tv,
                    name@,
                    j as int,
                ),
            decreases n - j,
        {
            assert(tv[j as int] == self.types@[j as int]@);
            if crate::pools::bytes_eq(self.types[j].name.as_slice(), name) {
                return Some(&self.types[j]);
            }
            j = j + 1;
        }
        None
    }

    /// Position of the first instance with the given name and type, if any.
    pub fn get_instance(&self, name: &[u8], type_def: &AdfType) -> (r: Option<usize>)
        ensures
            match r {
                Some(idx) => idx == spec_find_named_instance(
                    self@.instances,
                    name@,
                    type_def@.type_hash,
                    0,
                ) && idx < self@.instances.len(),
                None => spec_find_named_instance(self@.instances, name@, type_def@.type_hash, 0)
                    == self@.instances.len(),
            },
    {
        let ghost iv = self@.instances;
        let n = self.instances.len();
        let mut j: usize = 0;
        while j < n
            invariant
                j <= n,
                n == self.instances@.len(),
                iv == self@.instances,
                spec_find_named_instance(iv, name@, type_def@.type_hash, 0)
                    == spec_find_named_instance(iv, name@, type_def@.type_hash, j as int),
            decreases n - j,
        {
            assert(iv[j as int] == self.instances@[j as int]@);
            if self.instances[j].type_hash == type_def.type_hash && crate::pools::bytes_eq(
                self.instances[j].name.as_slice(),
                name,
            ) {
                return Some(j);
            }
            j = j + 1;
        }
        None
    }

    /// Position of the named instance of the given type, creating it with a
    /// zeroed buffer of the type's size and alignment when it is absent.
    pub fn new_instance(&mut self, name: &[u8], type_def: &AdfType) -> (idx: usize)
        ensures
            idx < final(self)@.instances.len(),
            ({
                let j = spec_find_named_instance(old(self)@.instances, name@, type_def@.type_hash, 0);
                if j < old(self)@.instances.len() {
                    idx == j && final(self)@ == old(self)@
                } else {
                    let created = (AdfInstanceView {
                        name: name@,
                        type_hash: type_def@.type_hash,
                        buffer: crate::bytes::spec_zeros(type_def@.size as int),
                        alignment: type_def@.alignment,
                    });
                    &&& idx == old(self)@.instances.len()
                    &&& final(self)@.instances == old(self)@.instances.push(created)
                    &&& final(self)@.types == old(self)@.types
                    &&& final(self)@.hashes == old(self)@.hashes
                    &&& final(self)@.description == old(self)@.description
                    &&& final(self)@.version == old(self)@.version
                }
            }),
    {
        if let Some(idx) = self.get_instance(name, type_def) {
            return idx;
        }
        let mut name_copy: Vec<u8> = Vec::new();
        crate::bytes::push_bytes(&mut name_copy, name);
        let mut buffer: Vec<u8> = Vec::new();
        crate::bytes::push_zeros(&mut buffer, type_def.size as usize);
        let inst = AdfInstance {
            name: name_copy,
            type_hash: type_def.type_hash,
            buffer: buffer,
            alignment: type_def.alignment,
        };
        let idx = self.instances.len();
        assert(inst@.name =~= name@);
        assert(inst@.buffer =~= crate::bytes::spec_zeros(type_def@.size as int));
        self.instances.push(inst);
        assert(self@.instances =~= old(self)@.instances.push(
            AdfInstanceView {
                name: name@,
                type_hash: type_def@.type_hash,
                buffer: crate::bytes::spec_zeros(type_def@.size as int),
                alignment: type_def@.alignment,
            },
        ));
        idx
    }

    /// Drop the instance at the given position; the last instance takes its
    /// place, as a swap-removal does. Positions past the end are refused.
    pub fn remove_instance(&mut self, idx: usize) -> (r: bool)
        ensures
            r == (idx < old(self)@.instances.len()),
            r ==> final(self)@.instances =~= old(self)@.instances.update(
                idx as int,
                old(self)@.instances.last(),
            ).drop_last(),
            !r ==> final(self)@ == old(self)@,
    {
        if idx >= self.instances.len() {
            return false;
        }
        self.instances.swap_remove(idx);
        assert(final(self)@.instances =~= old(self)@.instances.update(
            idx as int,
            old(self)@.instances.last(),
        ).drop_last());
        true
    }
}

} // verus!
