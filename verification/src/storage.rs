//! The checkpoint header as plain data: which tensors it declares and how each weight matrix is
//! laid out.

use vstd::hash_map::StringHashMap;
use vstd::prelude::*;
use vstd::string::*;

verus! {

/// Element types that a checkpoint declares.
#[derive(Debug, Clone, Copy, PartialEq, Eq, Structural)]
pub enum DType {
    F32,
    F16,
    Bf16,
    F8E4M3,
    F8E8M0,
    I8,
    U8,
    I64,
}

impl DType {
    pub open spec fn label(self) -> Seq<char> {
        match self {
            DType::F32 => "F32"@,
            DType::F16 => "F16"@,
            DType::Bf16 => "BF16"@,
            DType::F8E4M3 => "F8_E4M3"@,
            DType::F8E8M0 => "F8_E8M0"@,
            DType::I8 => "I8"@,
            DType::U8 => "U8"@,
            DType::I64 => "I64"@,
        }
    }

    /// The name of the type in a checkpoint header.
    pub fn name(&self) -> (text: &'static str)
        ensures
            text@ == self.label(),
    {
        match self {
            DType::F32 => "F32",
            DType::F16 => "F16",
            DType::Bf16 => "BF16",
            DType::F8E4M3 => "F8_E4M3",
            DType::F8E8M0 => "F8_E8M0",
            DType::I8 => "I8",
            DType::U8 => "U8",
            DType::I64 => "I64",
        }
    }
}

/// What the header says of one tensor.
#[derive(Debug, Clone)]
pub struct TensorInfo {
    pub dtype: DType,
    pub shape: Vec<u64>,
    pub data_len: u64,
    /// Position of the file that holds the payload, in file order.
    pub shard: usize,
    pub data_offset: u64,
}

/// How the elements of a weight matrix are stored.
#[derive(Debug, Clone, Copy, PartialEq, Eq, Structural)]
pub enum WeightFormat {
    F32,
    F16,
    Bf16,
    Int8PerRow,
    Int4 { group_size: usize },
    MxFp8E4M3 { block_rows: usize, block_cols: usize },
    MxFp4E2M1 { group_size: usize },
}

impl WeightFormat {
    /// Microscaled formats keep their scales in a tensor of their own.
    pub open spec fn scaled(self) -> bool {
        self is MxFp8E4M3 || self is MxFp4E2M1
    }

    pub fn has_native_scale(&self) -> (result: bool)
        ensures
            result == self.scaled(),
    {
        match self {
            WeightFormat::MxFp8E4M3 { .. } => true,
            WeightFormat::MxFp4E2M1 { .. } => true,
            _ => false,
        }
    }
}

/// What the inspection of one weight matrix found.
#[derive(Debug, Clone, Copy, PartialEq, Eq, Structural)]
pub struct WeightLayout {
    pub rows: usize,
    pub cols: usize,
    pub format: WeightFormat,
    pub resident_bytes: u64,
}

/// A tensor or a layout that the checkpoint does not have.
#[derive(Debug)]
pub enum StorageError {
    /// The header declares no tensor of this name.
    Missing(String),
    /// No weight matrix of this name and shape was recognized.
    Layout { name: String, rows: usize, cols: usize },
}

/// The same error, over plain values.
pub enum StorageProblem {
    Missing(Seq<char>),
    Layout { name: Seq<char>, rows: usize, cols: usize },
}

impl View for StorageError {
    type V = StorageProblem;

    open spec fn view(&self) -> StorageProblem {
        match self {
            StorageError::Missing(name) => StorageProblem::Missing(name@),
            StorageError::Layout { name, rows, cols } => StorageProblem::Layout {
                name: name@,
                rows: *rows,
                cols: *cols,
            },
        }
    }
}

/// The tensors of a checkpoint, by name, with the layouts that were recognized in it.
pub struct TensorIndex {
    names: Vec<String>,
    tensors: StringHashMap<TensorInfo>,
    layouts: StringHashMap<WeightLayout>,
    shard_count: usize,
    file_bytes: u64,
    payload_bytes: u64,
}

/// What a [`TensorIndex`] holds.
pub struct IndexView {
    pub names: Seq<Seq<char>>,
    pub tensors: Map<Seq<char>, TensorInfo>,
    pub layouts: Map<Seq<char>, WeightLayout>,
    pub shard_count: usize,
    pub file_bytes: u64,
    pub payload_bytes: u64,
}

/// The texts of a list.
pub open spec fn texts(list: Seq<String>) -> Seq<Seq<char>> {
    Seq::new(list.len(), |i: int| list[i]@)
}

impl View for TensorIndex {
    type V = IndexView;

    closed spec fn view(&self) -> IndexView {
        IndexView {
            names: texts(self.names@),
            tensors: self.tensors@,
            layouts: self.layouts@,
            shard_count: self.shard_count,
            file_bytes: self.file_bytes,
            payload_bytes: self.payload_bytes,
        }
    }
}

impl IndexView {
    /// Every tensor is listed once, and nothing else is listed.
    pub open spec fn well_formed(self) -> bool {
        &&& self.names.no_duplicates()
        &&& forall|name: Seq<char>|
            self.names.contains(name) <==> #[trigger] self.tensors.contains_key(name)
    }

    pub open spec fn inspect(self, name: Seq<char>, rows: usize, cols: usize) -> Result<
        WeightLayout,
        StorageProblem,
    > {
        if self.layouts.contains_key(name) && self.layouts[name].rows == rows
            && self.layouts[name].cols == cols {
            Ok(self.layouts[name])
        } else {
            Err(StorageProblem::Layout { name, rows, cols })
        }
    }

    pub open spec fn require(self, name: Seq<char>) -> Result<TensorInfo, StorageProblem> {
        if self.tensors.contains_key(name) {
            Ok(self.tensors[name])
        } else {
            Err(StorageProblem::Missing(name))
        }
    }
}

impl TensorIndex {
    /// An index of no tensors over the given files.
    pub fn new(shard_count: usize, file_bytes: u64, payload_bytes: u64) -> (index: Self)
        ensures
            index@.names == Seq::<Seq<char>>::empty(),
            index@.tensors == Map::<Seq<char>, TensorInfo>::empty(),
            index@.layouts == Map::<Seq<char>, WeightLayout>::empty(),
            index@.shard_count == shard_count,
            index@.file_bytes == file_bytes,
            index@.payload_bytes == payload_bytes,
            index@.well_formed(),
    {
        let index = TensorIndex {
            names: Vec::new(),
            tensors: StringHashMap::new(),
            layouts: StringHashMap::new(),
            shard_count,
            file_bytes,
            payload_bytes,
        };
        assert(index@.names =~= Seq::<Seq<char>>::empty());
        index
    }

    /// Declares a tensor. A name that is declared already keeps its first declaration.
    pub fn declare(&mut self, name: String, info: TensorInfo) -> (added: bool)
        requires
            old(self)@.well_formed(),
        ensures
            final(self)@.well_formed(),
            added == !old(self)@.tensors.contains_key(name@),
            !added ==> *final(self) == *old(self),
            added ==> final(self)@ == (IndexView {
                names: old(self)@.names.push(name@),
                tensors: old(self)@.tensors.insert(name@, info),
                ..old(self)@
            }),
    {
        if self.tensors.contains_key(name.as_str()) {
            return false;
        }
        let ghost before = self@;
        self.names.push(name.clone());
        self.tensors.insert(name, info);
        proof {
            assert(self@.names =~= before.names.push(name@));
            assert(!before.names.contains(name@));
            assert forall|other: Seq<char>|
                self@.names.contains(other) <==> #[trigger] self@.tensors.contains_key(other) by {
                if self@.names.contains(other) {
                    let i = choose|i: int| 0 <= i < self@.names.len() && self@.names[i] == other;
                    if i < before.names.len() {
                        assert(before.names[i] == other);
                        assert(before.names.contains(other));
                        assert(before.tensors.contains_key(other));
                    }
                }
                if self@.tensors.contains_key(other) {
                    if other == name@ {
                        assert(self@.names[before.names.len() as int] == other);
                    } else {
                        assert(before.tensors.contains_key(other));
                        let i = choose|i: int|
                            0 <= i < before.names.len() && before.names[i] == other;
                        assert(self@.names[i] == other);
                    }
                }
            }
            assert forall|i: int, j: int|
                0 <= i < self@.names.len() && 0 <= j < self@.names.len() && i
                    != j implies self@.names[i] != self@.names[j] by {
                if i < before.names.len() && j < before.names.len() {
                    assert(before.names[i] != before.names[j]);
                } else if i < before.names.len() {
                    assert(before.names.contains(before.names[i]));
                } else {
                    assert(before.names.contains(before.names[j]));
                }
            }
        }
        true
    }

    /// Records the layout that was recognized for a weight matrix.
    pub fn set_layout(&mut self, name: String, layout: WeightLayout)
        ensures
            final(self)@ == (IndexView {
                layouts: old(self)@.layouts.insert(name@, layout),
                ..old(self)@
            }),
    {
        self.layouts.insert(name, layout);
    }

    pub fn get(&self, name: &str) -> (info: Option<&TensorInfo>)
        ensures
            match info {
                Some(info) => self@.tensors.contains_key(name@) && *info == self@.tensors[name@],
                None => !self@.tensors.contains_key(name@),
            },
    {
        self.tensors.get(name)
    }

    pub fn require(&self, name: &str) -> (result: Result<&TensorInfo, StorageError>)
        ensures
            match result {
                Ok(info) => self@.require(name@) == Ok::<TensorInfo, StorageProblem>(*info),
                Err(error) => self@.require(name@) == Err::<TensorInfo, StorageProblem>(error@),
            },
    {
        match self.tensors.get(name) {
            Some(info) => Ok(info),
            None => Err(StorageError::Missing(name.to_owned())),
        }
    }

    pub fn names(&self) -> (names: &Vec<String>)
        ensures
            texts(names@) == self@.names,
    {
        &self.names
    }

    pub fn shards(&self) -> (count: usize)
        ensures
            count == self@.shard_count,
    {
        self.shard_count
    }

    pub fn total_file_bytes(&self) -> (bytes: u64)
        ensures
            bytes == self@.file_bytes,
    {
        self.file_bytes
    }

    pub fn total_payload_bytes(&self) -> (bytes: u64)
        ensures
            bytes == self@.payload_bytes,
    {
        self.payload_bytes
    }
}

/// The layout of a weight matrix of the given shape.
pub fn inspect_weight_matrix(
    index: &TensorIndex,
    name: &str,
    rows: usize,
    cols: usize,
) -> (result: Result<WeightLayout, StorageError>)
    ensures
        match result {
            Ok(layout) => index@.inspect(name@, rows, cols) == Ok::<WeightLayout, StorageProblem>(
                layout,
            ),
            Err(error) => index@.inspect(name@, rows, cols) == Err::<WeightLayout, StorageProblem>(
                error@,
            ),
        },
{
    if let Some(layout) = index.layouts.get(name) {
        if layout.rows == rows && layout.cols == cols {
            return Ok(*layout);
        }
    }
    Err(StorageError::Layout { name: name.to_owned(), rows, cols })
}

/// A weight is inspected exactly where its layout was recognized with the same shape, a tensor is there
/// exactly where it was declared, and the formats with scales of their own are the two of blocks.
pub proof fn recognized_weights_are_inspected(
    index: IndexView,
    name: Seq<char>,
    rows: usize,
    cols: usize,
    format: WeightFormat,
)
    ensures
        index.inspect(name, rows, cols) is Ok <==> index.layouts.contains_key(name)
            && index.layouts[name].rows == rows && index.layouts[name].cols == cols,
        index.inspect(name, rows, cols) is Ok ==> index.inspect(name, rows, cols)->Ok_0
            == index.layouts[name],
        index.require(name) is Ok <==> index.tensors.contains_key(name),
        index.require(name) is Ok ==> index.require(name)->Ok_0 == index.tensors[name],
        format.scaled() <==> format is MxFp8E4M3 || format is MxFp4E2M1,
{
}

} // verus!
