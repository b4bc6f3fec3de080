use vstd::prelude::*;

verus! {

/// Width in bytes of every content hash the store keys by.
pub const HASH_LEN: usize = 32;

/// The entity kinds the store records, each with its own dense position space.
#[derive(Clone, Copy, Debug, PartialEq, Eq, Structural)]
pub enum EntityKind {
    Output,
    Input,
    Kernel,
}

/// An output row: the full payload is present unless the row was pruned,
/// while the hashes and position survive pruning for spend-proof checks.
#[derive(Debug)]
pub struct TransactionOutputRowData {
    pub output: Option<Vec<u8>>,
    pub header_hash: Vec<u8>,
    pub mmr_position: u32,
    pub hash: Vec<u8>,
    pub witness_hash: Vec<u8>,
    pub mined_height: u64,
}

/// An input row: the spend witness of a consumed output.
#[derive(Debug)]
pub struct TransactionInputRowData {
    pub input: Vec<u8>,
    pub header_hash: Vec<u8>,
    pub mmr_position: u32,
    pub hash: Vec<u8>,
}

/// A kernel row: an excess commitment with fee and signature.
#[derive(Debug)]
pub struct TransactionKernelRowData {
    pub kernel: Vec<u8>,
    pub header_hash: Vec<u8>,
    pub mmr_position: u32,
    pub hash: Vec<u8>,
}

/// A row of any kind, as the unified fetch surface hands it out.
#[derive(Debug)]
pub enum Row {
    Output(TransactionOutputRowData),
    Input(TransactionInputRowData),
    Kernel(TransactionKernelRowData),
}

/// Mathematical image of an output row.
#[verifier::ext_equal]
pub ghost struct OutputRowModel {
    pub output: Option<Seq<u8>>,
    pub header_hash: Seq<u8>,
    pub mmr_position: u32,
    pub hash: Seq<u8>,
    pub witness_hash: Seq<u8>,
    pub mined_height: u64,
}

/// Mathematical image of an input row.
#[verifier::ext_equal]
pub ghost struct InputRowModel {
    pub input: Seq<u8>,
    pub header_hash: Seq<u8>,
    pub mmr_position: u32,
    pub hash: Seq<u8>,
}

/// Mathematical image of a kernel row.
#[verifier::ext_equal]
pub ghost struct KernelRowModel {
    pub kernel: Seq<u8>,
    pub header_hash: Seq<u8>,
    pub mmr_position: u32,
    pub hash: Seq<u8>,
}

/// Mathematical image of a row of any kind.
#[verifier::ext_equal]
pub ghost enum RowModel {
    Output(OutputRowModel),
    Input(InputRowModel),
    Kernel(KernelRowModel),
}

impl OutputRowModel {
    /// Every hash has the fixed width.
    pub open spec fn wf(self) -> bool {
        &&& self.header_hash.len() == HASH_LEN
        &&& self.hash.len() == HASH_LEN
        &&& self.witness_hash.len() == HASH_LEN
    }
}

impl InputRowModel {
    /// Every hash has the fixed width.
    pub open spec fn wf(self) -> bool {
        &&& self.header_hash.len() == HASH_LEN
        &&& self.hash.len() == HASH_LEN
    }
}

impl KernelRowModel {
    /// Every hash has the fixed width.
    pub open spec fn wf(self) -> bool {
        &&& self.header_hash.len() == HASH_LEN
        &&& self.hash.len() == HASH_LEN
    }
}

impl RowModel {
    /// Every hash has the fixed width.
    pub open spec fn wf(self) -> bool {
        match self {
            RowModel::Output(m) => m.wf(),
            RowModel::Input(m) => m.wf(),
            RowModel::Kernel(m) => m.wf(),
        }
    }
}

impl View for TransactionOutputRowData {
    type V = OutputRowModel;

    open spec fn view(&self) -> OutputRowModel {
        OutputRowModel {
            output: match self.output {
                Some(p) => Some(p@),
                None => None,
            },
            header_hash: self.header_hash@,
            mmr_position: self.mmr_position,
            hash: self.hash@,
            witness_hash: self.witness_hash@,
            mined_height: self.mined_height,
        }
    }
}

impl View for TransactionInputRowData {
    type V = InputRowModel;

    open spec fn view(&self) -> InputRowModel {
        InputRowModel {
            input: self.input@,
            header_hash: self.header_hash@,
            mmr_position: self.mmr_position,
            hash: self.hash@,
        }
    }
}

impl View for TransactionKernelRowData {
    type V = KernelRowModel;

    open spec fn view(&self) -> KernelRowModel {
        KernelRowModel {
            kernel: self.kernel@,
            header_hash: self.header_hash@,
            mmr_position: self.mmr_position,
            hash: self.hash@,
        }
    }
}

impl View for Row {
    type V = RowModel;

    open spec fn view(&self) -> RowModel {
        match self {
            Row::Output(r) => RowModel::Output(r@),
            Row::Input(r) => RowModel::Input(r@),
            Row::Kernel(r) => RowModel::Kernel(r@),
        }
    }
}

/// An owned copy of a byte string.
pub fn clone_bytes(b: &Vec<u8>) -> (r: Vec<u8>)
    ensures
        r@ == b@,
{
    let mut r: Vec<u8> = Vec::new();
    let mut i: usize = 0;
    while i < b.len()
        invariant
            i <= b@.len(),
            r@ == b@.subrange(0, i as int),
        decreases b@.len() - i,
    {
        r.push(b[i]);
        proof {
            assert(r@ =~= b@.subrange(0, i + 1 as int));
        }
        i += 1;
    }
    proof {
        assert(r@ =~= b@);
    }
    r
}

/// Whether two byte strings hold the same bytes.
pub fn bytes_eq(a: &Vec<u8>, b: &Vec<u8>) -> (r: bool)
    ensures
        r <==> a@ == b@,
{
    if a.len() != b.len() {
        return false;
    }
    let mut i: usize = 0;
    while i < a.len()
        invariant
            a@.len() == b@.len(),
            i <= a@.len(),
            forall|j: int| 0 <= j < i ==> a@[j] == b@[j],
        decreases a@.len() - i,
    {
        if a[i] != b[i] {
            return false;
        }
        i += 1;
    }
    proof {
        assert(a@ =~= b@);
    }
    true
}

impl TransactionOutputRowData {
    /// A copy of the row with the same contents.
    pub fn clone_row(&self) -> (r: Self)
        ensures
            r@ == self@,
    {
        TransactionOutputRowData {
            output: match &self.output {
                Some(p) => Some(clone_bytes(p)),
                None => None,
            },
            header_hash: clone_bytes(&self.header_hash),
            mmr_position: self.mmr_position,
            hash: clone_bytes(&self.hash),
            witness_hash: clone_bytes(&self.witness_hash),
            mined_height: self.mined_height,
        }
    }
}

impl TransactionInputRowData {
    /// A copy of the row with the same contents.
    pub fn clone_row(&self) -> (r: Self)
        ensures
            r@ == self@,
    {
        TransactionInputRowData {
            input: clone_bytes(&self.input),
            header_hash: clone_bytes(&self.header_hash),
            mmr_position: self.mmr_position,
            hash: clone_bytes(&self.hash),
        }
    }
}

impl TransactionKernelRowData {
    /// A copy of the row with the same contents.
    pub fn clone_row(&self) -> (r: Self)
        ensures
            r@ == self@,
    {
        TransactionKernelRowData {
            kernel: clone_bytes(&self.kernel),
            header_hash: clone_bytes(&self.header_hash),
            mmr_position: self.mmr_position,
            hash: clone_bytes(&self.hash),
        }
    }
}

} // verus!
