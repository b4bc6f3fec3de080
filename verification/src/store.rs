use vstd::prelude::*;

use crate::error::StorageError;
use crate::rows::EntityKind;
use crate::rows::HASH_LEN;
use crate::rows::InputRowModel;
use crate::rows::KernelRowModel;
use crate::rows::OutputRowModel;
use crate::rows::Row;
use crate::rows::RowModel;
use crate::rows::TransactionInputRowData;
use crate::rows::TransactionKernelRowData;
use crate::rows::TransactionOutputRowData;
use crate::rows::bytes_eq;
use crate::rows::clone_bytes;

verus! {

/// Positions are 32-bit, so no table may grow past this many rows.
pub const MAX_POSITIONS: usize = 0xffff_ffff;

/// A fully validated output handed in for insertion; the store assigns its
/// position.
#[derive(Debug)]
pub struct NewOutput {
    pub payload: Vec<u8>,
    pub hash: Vec<u8>,
    pub witness_hash: Vec<u8>,
}

/// A fully validated input handed in for insertion.
#[derive(Debug)]
pub struct NewInput {
    pub payload: Vec<u8>,
    pub hash: Vec<u8>,
}

/// A fully validated kernel handed in for insertion.
#[derive(Debug)]
pub struct NewKernel {
    pub payload: Vec<u8>,
    pub hash: Vec<u8>,
}

/// One block's worth of validated rows, as the reorg coordinator replays
/// them.
#[derive(Debug)]
pub struct NewBlock {
    pub header_hash: Vec<u8>,
    pub height: u64,
    pub outputs: Vec<NewOutput>,
    pub inputs: Vec<NewInput>,
    pub kernels: Vec<NewKernel>,
}

/// Per-block bookkeeping: the height and, for every kind, the table length
/// when the block arrived, which a rewind restores.
#[derive(Debug)]
pub struct BlockRecord {
    pub header_hash: Vec<u8>,
    pub height: u64,
    pub output_start: usize,
    pub input_start: usize,
    pub kernel_start: usize,
}

/// Mathematical image of a new output.
#[verifier::ext_equal]
pub ghost struct NewOutputModel {
    pub payload: Seq<u8>,
    pub hash: Seq<u8>,
    pub witness_hash: Seq<u8>,
}

/// Mathematical image of a new input.
#[verifier::ext_equal]
pub ghost struct NewInputModel {
    pub payload: Seq<u8>,
    pub hash: Seq<u8>,
}

/// Mathematical image of a new kernel.
#[verifier::ext_equal]
pub ghost struct NewKernelModel {
    pub payload: Seq<u8>,
    pub hash: Seq<u8>,
}

/// Mathematical image of a new block.
#[verifier::ext_equal]
pub ghost struct NewBlockModel {
    pub header_hash: Seq<u8>,
    pub height: u64,
    pub outputs: Seq<NewOutputModel>,
    pub inputs: Seq<NewInputModel>,
    pub kernels: Seq<NewKernelModel>,
}

/// Mathematical image of a block record.
#[verifier::ext_equal]
pub ghost struct BlockRecordModel {
    pub header_hash: Seq<u8>,
    pub height: u64,
    pub output_start: int,
    pub input_start: int,
    pub kernel_start: int,
}

/// Mathematical image of the whole table set.
#[verifier::ext_equal]
pub ghost struct StoreModel {
    pub outputs: Seq<OutputRowModel>,
    pub inputs: Seq<InputRowModel>,
    pub kernels: Seq<KernelRowModel>,
    pub blocks: Seq<BlockRecordModel>,
}

impl View for NewOutput {
    type V = NewOutputModel;

    open spec fn view(&self) -> NewOutputModel {
        NewOutputModel { payload: self.payload@, hash: self.hash@, witness_hash: self.witness_hash@ }
    }
}

impl View for NewInput {
    type V = NewInputModel;

    open spec fn view(&self) -> NewInputModel {
        NewInputModel { payload: self.payload@, hash: self.hash@ }
    }
}

impl View for NewKernel {
    type V = NewKernelModel;

    open spec fn view(&self) -> NewKernelModel {
        NewKernelModel { payload: self.payload@, hash: self.hash@ }
    }
}

impl View for NewBlock {
    type V = NewBlockModel;

    open spec fn view(&self) -> NewBlockModel {
        NewBlockModel {
            header_hash: self.header_hash@,
            height: self.height,
            outputs: self.outputs@.map_values(|n: NewOutput| n@),
            inputs: self.inputs@.map_values(|n: NewInput| n@),
            kernels: self.kernels@.map_values(|n: NewKernel| n@),
        }
    }
}

impl View for BlockRecord {
    type V = BlockRecordModel;

    open spec fn view(&self) -> BlockRecordModel {
        BlockRecordModel {
            header_hash: self.header_hash@,
            height: self.height,
            output_start: self.output_start as int,
            input_start: self.input_start as int,
            kernel_start: self.kernel_start as int,
        }
    }
}

impl NewOutputModel {
    /// The hashes have the fixed width.
    pub open spec fn wf(self) -> bool {
        self.hash.len() == HASH_LEN && self.witness_hash.len() == HASH_LEN
    }
}

impl NewInputModel {
    /// The hash has the fixed width.
    pub open spec fn wf(self) -> bool {
        self.hash.len() == HASH_LEN
    }
}

impl NewKernelModel {
    /// The hash has the fixed width.
    pub open spec fn wf(self) -> bool {
        self.hash.len() == HASH_LEN
    }
}

impl NewBlockModel {
    /// The header hash has the fixed width and every row is well formed.
    pub open spec fn wf(self) -> bool {
        &&& self.header_hash.len() == HASH_LEN
        &&& forall|j: int| 0 <= j < self.outputs.len() ==> (#[trigger] self.outputs[j]).wf()
        &&& forall|j: int| 0 <= j < self.inputs.len() ==> (#[trigger] self.inputs[j]).wf()
        &&& forall|j: int| 0 <= j < self.kernels.len() ==> (#[trigger] self.kernels[j]).wf()
    }
}

impl StoreModel {
    /// The table-set invariant: positions of every kind are exactly the
    /// dense range of indices, hashes are unique per kind, every hash has
    /// the fixed width, and block records carve the tables into monotone
    /// segments at strictly increasing heights.
    pub open spec fn wf(self) -> bool {
        &&& self.outputs.len() <= MAX_POSITIONS
        &&& self.inputs.len() <= MAX_POSITIONS
        &&& self.kernels.len() <= MAX_POSITIONS
        &&& forall|i: int|
            0 <= i < self.outputs.len() ==> (#[trigger] self.outputs[i]).mmr_position == i
        &&& forall|i: int|
            0 <= i < self.inputs.len() ==> (#[trigger] self.inputs[i]).mmr_position == i
        &&& forall|i: int|
            0 <= i < self.kernels.len() ==> (#[trigger] self.kernels[i]).mmr_position == i
        &&& forall|i: int| 0 <= i < self.outputs.len() ==> (#[trigger] self.outputs[i]).wf()
        &&& forall|i: int| 0 <= i < self.inputs.len() ==> (#[trigger] self.inputs[i]).wf()
        &&& forall|i: int| 0 <= i < self.kernels.len() ==> (#[trigger] self.kernels[i]).wf()
        &&& forall|i: int, j: int|
            0 <= i < j < self.outputs.len() ==> (#[trigger] self.outputs[i]).hash != (
            #[trigger] self.outputs[j]).hash
        &&& forall|i: int, j: int|
            0 <= i < j < self.inputs.len() ==> (#[trigger] self.inputs[i]).hash != (
            #[trigger] self.inputs[j]).hash
        &&& forall|i: int, j: int|
            0 <= i < j < self.kernels.len() ==> (#[trigger] self.kernels[i]).hash != (
            #[trigger] self.kernels[j]).hash
        &&& forall|i: int|
            0 <= i < self.blocks.len() ==> {
                &&& (#[trigger] self.blocks[i]).header_hash.len() == HASH_LEN
                &&& 0 <= self.blocks[i].output_start <= self.outputs.len()
                &&& 0 <= self.blocks[i].input_start <= self.inputs.len()
                &&& 0 <= self.blocks[i].kernel_start <= self.kernels.len()
            }
        &&& forall|i: int, j: int|
            0 <= i < j < self.blocks.len() ==> {
                &&& (#[trigger] self.blocks[i]).height < (#[trigger] self.blocks[j]).height
                &&& self.blocks[i].output_start <= self.blocks[j].output_start
                &&& self.blocks[i].input_start <= self.blocks[j].input_start
                &&& self.blocks[i].kernel_start <= self.blocks[j].kernel_start
            }
    }

    /// Whether `h` lies strictly above the recorded tip, so a block at `h`
    /// extends the chain.
    pub open spec fn height_above_tip(self, h: u64) -> bool {
        self.blocks.len() == 0 || self.blocks[self.blocks.len() - 1].height < h
    }

    /// Number of rows of one kind.
    pub open spec fn kind_len(self, kind: EntityKind) -> int {
        match kind {
            EntityKind::Output => self.outputs.len() as int,
            EntityKind::Input => self.inputs.len() as int,
            EntityKind::Kernel => self.kernels.len() as int,
        }
    }

    /// The current position frontier of one kind: the highest assigned
    /// position, or nothing while the table is empty.
    pub open spec fn spec_highest(self, kind: EntityKind) -> Option<u32> {
        if self.kind_len(kind) == 0 {
            None
        } else {
            Some((self.kind_len(kind) - 1) as u32)
        }
    }

    /// Whether some output row carries this content hash.
    pub open spec fn output_hash_exists(self, h: Seq<u8>) -> bool {
        exists|i: int| 0 <= i < self.outputs.len() && (#[trigger] self.outputs[i]).hash == h
    }

    /// Whether some input row carries this content hash.
    pub open spec fn input_hash_exists(self, h: Seq<u8>) -> bool {
        exists|i: int| 0 <= i < self.inputs.len() && (#[trigger] self.inputs[i]).hash == h
    }

    /// Whether some kernel row carries this content hash.
    pub open spec fn kernel_hash_exists(self, h: Seq<u8>) -> bool {
        exists|i: int| 0 <= i < self.kernels.len() && (#[trigger] self.kernels[i]).hash == h
    }

    /// Whether inserting these outputs would reuse a content hash, either
    /// one already stored or one appearing twice in the batch.
    pub open spec fn outputs_conflict(self, new: Seq<NewOutputModel>) -> bool {
        ||| exists|j: int| 0 <= j < new.len() && self.output_hash_exists((#[trigger] new[j]).hash)
        ||| exists|j: int, k: int| 0 <= j < k < new.len() && (#[trigger] new[j]).hash == (
        #[trigger] new[k]).hash
    }

    /// As `outputs_conflict`, for inputs.
    pub open spec fn inputs_conflict(self, new: Seq<NewInputModel>) -> bool {
        ||| exists|j: int| 0 <= j < new.len() && self.input_hash_exists((#[trigger] new[j]).hash)
        ||| exists|j: int, k: int| 0 <= j < k < new.len() && (#[trigger] new[j]).hash == (
        #[trigger] new[k]).hash
    }

    /// As `outputs_conflict`, for kernels.
    pub open spec fn kernels_conflict(self, new: Seq<NewKernelModel>) -> bool {
        ||| exists|j: int| 0 <= j < new.len() && self.kernel_hash_exists((#[trigger] new[j]).hash)
        ||| exists|j: int, k: int| 0 <= j < k < new.len() && (#[trigger] new[j]).hash == (
        #[trigger] new[k]).hash
    }

    /// Whether a block's rows collide with stored rows or with each other.
    pub open spec fn block_conflict(self, b: NewBlockModel) -> bool {
        self.outputs_conflict(b.outputs) || self.inputs_conflict(b.inputs)
            || self.kernels_conflict(b.kernels)
    }

    /// The store after one block's rows are appended: each kind's rows take
    /// the next free positions in batch order, and a block record captures
    /// the pre-insert frontiers.
    pub open spec fn spec_insert_block(self, b: NewBlockModel) -> StoreModel {
        StoreModel {
            outputs: self.outputs + new_output_rows(
                self.outputs.len() as int,
                b.header_hash,
                b.height,
                b.outputs,
            ),
            inputs: self.inputs + new_input_rows(
                self.inputs.len() as int,
                b.header_hash,
                b.inputs,
            ),
            kernels: self.kernels + new_kernel_rows(
                self.kernels.len() as int,
                b.header_hash,
                b.kernels,
            ),
            blocks: self.blocks.push(
                BlockRecordModel {
                    header_hash: b.header_hash,
                    height: b.height,
                    output_start: self.outputs.len() as int,
                    input_start: self.inputs.len() as int,
                    kernel_start: self.kernels.len() as int,
                },
            ),
        }
    }
}

/// The output rows a block contributes, positioned from `base`.
pub open spec fn new_output_rows(
    base: int,
    header: Seq<u8>,
    height: u64,
    new: Seq<NewOutputModel>,
) -> Seq<OutputRowModel> {
    new.map(
        |j: int, n: NewOutputModel|
            OutputRowModel {
                output: Some(n.payload),
                header_hash: header,
                mmr_position: (base + j) as u32,
                hash: n.hash,
                witness_hash: n.witness_hash,
                mined_height: height,
            },
    )
}

/// The input rows a block contributes, positioned from `base`.
pub open spec fn new_input_rows(base: int, header: Seq<u8>, new: Seq<NewInputModel>) -> Seq<
    InputRowModel,
> {
    new.map(
        |j: int, n: NewInputModel|
            InputRowModel {
                input: n.payload,
                header_hash: header,
                mmr_position: (base + j) as u32,
                hash: n.hash,
            },
    )
}

/// The kernel rows a block contributes, positioned from `base`.
pub open spec fn new_kernel_rows(base: int, header: Seq<u8>, new: Seq<NewKernelModel>) -> Seq<
    KernelRowModel,
> {
    new.map(
        |j: int, n: NewKernelModel|
            KernelRowModel {
                kernel: n.payload,
                header_hash: header,
                mmr_position: (base + j) as u32,
                hash: n.hash,
            },
    )
}

/// The indexed, multi-table store: per-kind primary tables in position
/// order, the derived position index of each, and the block records a
/// rewind consults. A whole value stands for one committed snapshot; every
/// mutating operation either fully applies or leaves it untouched.
pub struct ChainStore {
    outputs: Vec<TransactionOutputRowData>,
    inputs: Vec<TransactionInputRowData>,
    kernels: Vec<TransactionKernelRowData>,
    outputs_by_position: Vec<Vec<u8>>,
    inputs_by_position: Vec<Vec<u8>>,
    kernels_by_position: Vec<Vec<u8>>,
    blocks: Vec<BlockRecord>,
}

impl View for ChainStore {
    type V = StoreModel;

    closed spec fn view(&self) -> StoreModel {
        StoreModel {
            outputs: self.outputs@.map_values(|r: TransactionOutputRowData| r@),
            inputs: self.inputs@.map_values(|r: TransactionInputRowData| r@),
            kernels: self.kernels@.map_values(|r: TransactionKernelRowData| r@),
            blocks: self.blocks@.map_values(|r: BlockRecord| r@),
        }
    }
}

impl ChainStore {
    /// The derived position index of one kind: entry `p` holds the primary
    /// key of the row at position `p`.
    pub closed spec fn position_index(self, kind: EntityKind) -> Seq<Seq<u8>> {
        match kind {
            EntityKind::Output => self.outputs_by_position@.map_values(|v: Vec<u8>| v@),
            EntityKind::Input => self.inputs_by_position@.map_values(|v: Vec<u8>| v@),
            EntityKind::Kernel => self.kernels_by_position@.map_values(|v: Vec<u8>| v@),
        }
    }

    /// The store invariant: the model is well formed and each position
    /// index mirrors its primary table, entry for entry.
    pub open spec fn wf(self) -> bool {
        &&& self@.wf()
        &&& self.position_index(EntityKind::Output).len() == self@.outputs.len()
        &&& self.position_index(EntityKind::Input).len() == self@.inputs.len()
        &&& self.position_index(EntityKind::Kernel).len() == self@.kernels.len()
        &&& forall|i: int|
            0 <= i < self@.outputs.len() ==> (#[trigger] self.position_index(
                EntityKind::Output,
            )[i]) == self@.outputs[i].hash
        &&& forall|i: int|
            0 <= i < self@.inputs.len() ==> (#[trigger] self.position_index(
                EntityKind::Input,
            )[i]) == self@.inputs[i].hash
        &&& forall|i: int|
            0 <= i < self@.kernels.len() ==> (#[trigger] self.position_index(
                EntityKind::Kernel,
            )[i]) == self@.kernels[i].hash
    }

    /// An empty store: no rows, no blocks, frontier unset for every kind.
    pub fn new() -> (s: ChainStore)
        ensures
            s.wf(),
            s@.outputs.len() == 0,
            s@.inputs.len() == 0,
            s@.kernels.len() == 0,
            s@.blocks.len() == 0,
    {
        ChainStore {
            outputs: Vec::new(),
            inputs: Vec::new(),
            kernels: Vec::new(),
            outputs_by_position: Vec::new(),
            inputs_by_position: Vec::new(),
            kernels_by_position: Vec::new(),
            blocks: Vec::new(),
        }
    }

    /// The position of the output row holding this hash, if any.
    fn find_output(&self, hash: &Vec<u8>) -> (r: Option<usize>)
        ensures
            r matches Some(i) ==> i < self@.outputs.len() && self@.outputs[i as int].hash
                == hash@,
            r is None ==> !self@.output_hash_exists(hash@),
    {
        let mut i: usize = 0;
        while i < self.outputs.len()
            invariant
                i <= self@.outputs.len(),
                forall|j: int| 0 <= j < i ==> (#[trigger] self@.outputs[j]).hash != hash@,
            decreases self@.outputs.len() - i,
        {
            if bytes_eq(&self.outputs[i].hash, hash) {
                return Some(i);
            }
            i += 1;
        }
        None
    }

    /// The position of the input row holding this hash, if any.
    fn find_input(&self, hash: &Vec<u8>) -> (r: Option<usize>)
        ensures
            r matches Some(i) ==> i < self@.inputs.len() && self@.inputs[i as int].hash == hash@,
            r is None ==> !self@.input_hash_exists(hash@),
    {
        let mut i: usize = 0;
        while i < self.inputs.len()
            invariant
                i <= self@.inputs.len(),
                forall|j: int| 0 <= j < i ==> (#[trigger] self@.inputs[j]).hash != hash@,
            decreases self@.inputs.len() - i,
        {
            if bytes_eq(&self.inputs[i].hash, hash) {
                return Some(i);
            }
            i += 1;
        }
        None
    }

    /// The position of the kernel row holding this hash, if any.
    fn find_kernel(&self, hash: &Vec<u8>) -> (r: Option<usize>)
        ensures
            r matches Some(i) ==> i < self@.kernels.len() && self@.kernels[i as int].hash
                == hash@,
            r is None ==> !self@.kernel_hash_exists(hash@),
    {
        let mut i: usize = 0;
        while i < self.kernels.len()
            invariant
                i <= self@.kernels.len(),
                forall|j: int| 0 <= j < i ==> (#[trigger] self@.kernels[j]).hash != hash@,
            decreases self@.kernels.len() - i,
        {
            if bytes_eq(&self.kernels[i].hash, hash) {
                return Some(i);
            }
            i += 1;
        }
        None
    }

    /// The current frontier of one kind, used to validate the next block's
    /// position assignment before commit.
    pub fn highest_position(&self, kind: EntityKind) -> (r: Option<u32>)
        requires
            self.wf(),
        ensures
            r == self@.spec_highest(kind),
    {
        match kind {
            EntityKind::Output => {
                if self.outputs.len() == 0 {
                    None
                } else {
                    Some((self.outputs.len() - 1) as u32)
                }
            },
            EntityKind::Input => {
                if self.inputs.len() == 0 {
                    None
                } else {
                    Some((self.inputs.len() - 1) as u32)
                }
            },
            EntityKind::Kernel => {
                if self.kernels.len() == 0 {
                    None
                } else {
                    Some((self.kernels.len() - 1) as u32)
                }
            },
        }
    }

    /// Exact-match lookup through the primary key; hashes are unique per
    /// kind, so at most one row matches.
    pub fn fetch_by_hash(&self, kind: EntityKind, hash: &Vec<u8>) -> (r: Option<Row>)
        requires
            self.wf(),
        ensures
            match kind {
                EntityKind::Output => {
                    &&& (r is Some <==> self@.output_hash_exists(hash@))
                    &&& (r matches Some(row) ==> forall|i: int|
                        0 <= i < self@.outputs.len() && (#[trigger] self@.outputs[i]).hash
                            == hash@ ==> row@ == RowModel::Output(self@.outputs[i]))
                },
                EntityKind::Input => {
                    &&& (r is Some <==> self@.input_hash_exists(hash@))
                    &&& (r matches Some(row) ==> forall|i: int|
                        0 <= i < self@.inputs.len() && (#[trigger] self@.inputs[i]).hash
                            == hash@ ==> row@ == RowModel::Input(self@.inputs[i]))
                },
                EntityKind::Kernel => {
                    &&& (r is Some <==> self@.kernel_hash_exists(hash@))
                    &&& (r matches Some(row) ==> forall|i: int|
                        0 <= i < self@.kernels.len() && (#[trigger] self@.kernels[i]).hash
                            == hash@ ==> row@ == RowModel::Kernel(self@.kernels[i]))
                },
            },
    {
        match kind {
            EntityKind::Output => match self.find_output(hash) {
                Some(i) => Some(Row::Output(self.outputs[i].clone_row())),
                None => None,
            },
            EntityKind::Input => match self.find_input(hash) {
                Some(i) => Some(Row::Input(self.inputs[i].clone_row())),
                None => None,
            },
            EntityKind::Kernel => match self.find_kernel(hash) {
                Some(i) => Some(Row::Kernel(self.kernels[i].clone_row())),
                None => None,
            },
        }
    }

    /// Ordered lookup through the position index: position `p` resolves to
    /// the row at index `p` of its kind's table.
    pub fn fetch_by_position(&self, kind: EntityKind, position: u32) -> (r: Option<Row>)
        requires
            self.wf(),
        ensures
            match kind {
                EntityKind::Output => {
                    if (position as int) < self@.outputs.len() {
                        r matches Some(row) && row@ == RowModel::Output(
                            self@.outputs[position as int],
                        )
                    } else {
                        r is None
                    }
                },
                EntityKind::Input => {
                    if (position as int) < self@.inputs.len() {
                        r matches Some(row) && row@ == RowModel::Input(
                            self@.inputs[position as int],
                        )
                    } else {
                        r is None
                    }
                },
                EntityKind::Kernel => {
                    if (position as int) < self@.kernels.len() {
                        r matches Some(row) && row@ == RowModel::Kernel(
                            self@.kernels[position as int],
                        )
                    } else {
                        r is None
                    }
                },
            },
    {
        let idx = position as usize;
        match kind {
            EntityKind::Output => {
                if idx < self.outputs.len() {
                    Some(Row::Output(self.outputs[idx].clone_row()))
                } else {
                    None
                }
            },
            EntityKind::Input => {
                if idx < self.inputs.len() {
                    Some(Row::Input(self.inputs[idx].clone_row()))
                } else {
                    None
                }
            },
            EntityKind::Kernel => {
                if idx < self.kernels.len() {
                    Some(Row::Kernel(self.kernels[idx].clone_row()))
                } else {
                    None
                }
            },
        }
    }
}

/// The outputs after pruning hash `h`: the matching row keeps every field
/// but its payload, every other row stays as it was.
pub open spec fn spec_prune_outputs(rows: Seq<OutputRowModel>, h: Seq<u8>) -> Seq<OutputRowModel> {
    rows.map_values(
        |m: OutputRowModel|
            if m.hash == h {
                OutputRowModel { output: None, ..m }
            } else {
                m
            },
    )
}

/// Pruning is idempotent: pruning the same hash a second time changes
/// nothing. The matched row's payload is gone after either call, and every
/// other field of every row stays exactly as it was.
pub proof fn lemma_prune_idempotent(rows: Seq<OutputRowModel>, h: Seq<u8>)
    ensures
        spec_prune_outputs(spec_prune_outputs(rows, h), h) == spec_prune_outputs(rows, h),
        spec_prune_outputs(rows, h).len() == rows.len(),
        forall|i: int|
            0 <= i < rows.len() ==> {
                let pruned = #[trigger] spec_prune_outputs(rows, h)[i];
                &&& (rows[i].hash == h ==> pruned.output is None)
                &&& (rows[i].hash != h ==> pruned == rows[i])
                &&& pruned.hash == rows[i].hash
                &&& pruned.witness_hash == rows[i].witness_hash
                &&& pruned.header_hash == rows[i].header_hash
                &&& pruned.mmr_position == rows[i].mmr_position
                &&& pruned.mined_height == rows[i].mined_height
            },
{
    assert(spec_prune_outputs(spec_prune_outputs(rows, h), h) =~= spec_prune_outputs(rows, h));
}

impl ChainStore {
    /// Clears a stored output's payload while keeping its hashes, position
    /// and height for spend-proof checks; a no-op on an already pruned row,
    /// and `NotFound` exactly when no output carries the hash.
    pub fn prune_output(&mut self, hash: &Vec<u8>) -> (r: Result<(), StorageError>)
        requires
            old(self).wf(),
        ensures
            final(self).wf(),
            r is Ok <==> old(self)@.output_hash_exists(hash@),
            r is Err ==> *final(self) == *old(self) && r == Err::<(), StorageError>(
                StorageError::NotFound,
            ),
            r is Ok ==> final(self)@ == (StoreModel {
                outputs: spec_prune_outputs(old(self)@.outputs, hash@),
                ..old(self)@
            }),
    {
        match self.find_output(hash) {
            None => Err(StorageError::NotFound),
            Some(i) => {
                let new_row = {
                    let r_old = &self.outputs[i];
                    TransactionOutputRowData {
                        output: None,
                        header_hash: clone_bytes(&r_old.header_hash),
                        mmr_position: r_old.mmr_position,
                        hash: clone_bytes(&r_old.hash),
                        witness_hash: clone_bytes(&r_old.witness_hash),
                        mined_height: r_old.mined_height,
                    }
                };
                self.outputs[i] = new_row;
                proof {
                    assert(self@.outputs =~= spec_prune_outputs(old(self)@.outputs, hash@));
                    assert(self@ =~= StoreModel {
                        outputs: spec_prune_outputs(old(self)@.outputs, hash@),
                        ..old(self)@
                    });
                }
                Ok(())
            },
        }
    }
}


/// A block model assembled from its parts, as `insert_block_rows` sees it.
pub open spec fn block_of(
    header: Seq<u8>,
    height: u64,
    outs: Seq<NewOutputModel>,
    ins: Seq<NewInputModel>,
    kerns: Seq<NewKernelModel>,
) -> NewBlockModel {
    NewBlockModel { header_hash: header, height, outputs: outs, inputs: ins, kernels: kerns }
}

/// The models of a batch of new outputs.
pub open spec fn output_models(s: Seq<NewOutput>) -> Seq<NewOutputModel> {
    s.map_values(|n: NewOutput| n@)
}

/// The models of a batch of new inputs.
pub open spec fn input_models(s: Seq<NewInput>) -> Seq<NewInputModel> {
    s.map_values(|n: NewInput| n@)
}

/// The models of a batch of new kernels.
pub open spec fn kernel_models(s: Seq<NewKernel>) -> Seq<NewKernelModel> {
    s.map_values(|n: NewKernel| n@)
}

/// The models of a list of new blocks.
pub open spec fn block_models(s: Seq<NewBlock>) -> Seq<NewBlockModel> {
    s.map_values(|nb: NewBlock| nb@)
}

/// Appending one conflict-free block to a well-formed store keeps the store
/// well formed: positions stay dense, hashes stay unique, block records stay
/// monotone.
pub proof fn lemma_insert_block_wf(pre: StoreModel, b: NewBlockModel)
    requires
        pre.wf(),
        b.wf(),
        !pre.block_conflict(b),
        pre.height_above_tip(b.height),
        pre.outputs.len() + b.outputs.len() <= MAX_POSITIONS,
        pre.inputs.len() + b.inputs.len() <= MAX_POSITIONS,
        pre.kernels.len() + b.kernels.len() <= MAX_POSITIONS,
    ensures
        pre.spec_insert_block(b).wf(),
{
    let post = pre.spec_insert_block(b);
    let ob = pre.outputs.len() as int;
    let ib = pre.inputs.len() as int;
    let kb = pre.kernels.len() as int;
    assert forall|i: int, j: int| 0 <= i < j < post.outputs.len() implies (
    #[trigger] post.outputs[i]).hash != (#[trigger] post.outputs[j]).hash by {
        if i >= ob {
            if post.outputs[i].hash == post.outputs[j].hash {
                assert((b.outputs[i - ob]).hash == (b.outputs[j - ob]).hash);
                assert(pre.outputs_conflict(b.outputs));
            }
        } else if j >= ob {
            if post.outputs[i].hash == post.outputs[j].hash {
                assert((pre.outputs[i]).hash == (b.outputs[j - ob]).hash);
                assert(pre.output_hash_exists(b.outputs[j - ob].hash));
                assert(pre.outputs_conflict(b.outputs));
            }
        }
    }
    assert forall|i: int, j: int| 0 <= i < j < post.inputs.len() implies (
    #[trigger] post.inputs[i]).hash != (#[trigger] post.inputs[j]).hash by {
        if i >= ib {
            if post.inputs[i].hash == post.inputs[j].hash {
                assert((b.inputs[i - ib]).hash == (b.inputs[j - ib]).hash);
                assert(pre.inputs_conflict(b.inputs));
            }
        } else if j >= ib {
            if post.inputs[i].hash == post.inputs[j].hash {
                assert((pre.inputs[i]).hash == (b.inputs[j - ib]).hash);
                assert(pre.input_hash_exists(b.inputs[j - ib].hash));
                assert(pre.inputs_conflict(b.inputs));
            }
        }
    }
    assert forall|i: int, j: int| 0 <= i < j < post.kernels.len() implies (
    #[trigger] post.kernels[i]).hash != (#[trigger] post.kernels[j]).hash by {
        if i >= kb {
            if post.kernels[i].hash == post.kernels[j].hash {
                assert((b.kernels[i - kb]).hash == (b.kernels[j - kb]).hash);
                assert(pre.kernels_conflict(b.kernels));
            }
        } else if j >= kb {
            if post.kernels[i].hash == post.kernels[j].hash {
                assert((pre.kernels[i]).hash == (b.kernels[j - kb]).hash);
                assert(pre.kernel_hash_exists(b.kernels[j - kb].hash));
                assert(pre.kernels_conflict(b.kernels));
            }
        }
    }
    assert forall|i: int, j: int| 0 <= i < j < post.blocks.len() implies {
        &&& (#[trigger] post.blocks[i]).height < (#[trigger] post.blocks[j]).height
        &&& post.blocks[i].output_start <= post.blocks[j].output_start
        &&& post.blocks[i].input_start <= post.blocks[j].input_start
        &&& post.blocks[i].kernel_start <= post.blocks[j].kernel_start
    } by {
        if j == post.blocks.len() - 1 && pre.blocks.len() > 0 && i < pre.blocks.len() - 1 {
            assert(pre.blocks[i].height < pre.blocks[pre.blocks.len() - 1].height);
        }
    }
}

impl ChainStore {
    /// Whether inserting these outputs would reuse a content hash.
    fn outputs_have_conflict(&self, new: &Vec<NewOutput>) -> (r: bool)
        ensures
            r == self@.outputs_conflict(output_models(new@)),
    {
        let ghost views = output_models(new@);
        let mut j: usize = 0;
        while j < new.len()
            invariant
                j <= new@.len(),
                views == output_models(new@),
                forall|a: int|
                    0 <= a < j ==> !self@.output_hash_exists((#[trigger] views[a]).hash),
                forall|a: int, c: int|
                    0 <= a < c < j ==> (#[trigger] views[a]).hash != (#[trigger] views[c]).hash,
            decreases new@.len() - j,
        {
            match self.find_output(&new[j].hash) {
                Some(i) => {
                    proof {
                        assert(0 <= i < self@.outputs.len() && self@.outputs[i as int].hash
                            == views[j as int].hash);
                        assert(self@.output_hash_exists(views[j as int].hash));
                    }
                    return true;
                },
                None => {},
            }
            let mut k: usize = 0;
            while k < j
                invariant
                    k <= j < new@.len(),
                    views == output_models(new@),
                    forall|a: int|
                        0 <= a < k ==> (#[trigger] views[a]).hash != views[j as int].hash,
                decreases j - k,
            {
                if bytes_eq(&new[k].hash, &new[j].hash) {
                    proof {
                        assert((views[k as int]).hash == (views[j as int]).hash);
                    }
                    return true;
                }
                k += 1;
            }
            j += 1;
        }
        false
    }

    /// Whether inserting these inputs would reuse a content hash.
    fn inputs_have_conflict(&self, new: &Vec<NewInput>) -> (r: bool)
        ensures
            r == self@.inputs_conflict(input_models(new@)),
    {
        let ghost views = input_models(new@);
        let mut j: usize = 0;
        while j < new.len()
            invariant
                j <= new@.len(),
                views == input_models(new@),
                forall|a: int|
                    0 <= a < j ==> !self@.input_hash_exists((#[trigger] views[a]).hash),
                forall|a: int, c: int|
                    0 <= a < c < j ==> (#[trigger] views[a]).hash != (#[trigger] views[c]).hash,
            decreases new@.len() - j,
        {
            match self.find_input(&new[j].hash) {
                Some(i) => {
                    proof {
                        assert(0 <= i < self@.inputs.len() && self@.inputs[i as int].hash
                            == views[j as int].hash);
                        assert(self@.input_hash_exists(views[j as int].hash));
                    }
                    return true;
                },
                None => {},
            }
            let mut k: usize = 0;
            while k < j
                invariant
                    k <= j < new@.len(),
                    views == input_models(new@),
                    forall|a: int|
                        0 <= a < k ==> (#[trigger] views[a]).hash != views[j as int].hash,
                decreases j - k,
            {
                if bytes_eq(&new[k].hash, &new[j].hash) {
                    proof {
                        assert((views[k as int]).hash == (views[j as int]).hash);
                    }
                    return true;
                }
                k += 1;
            }
            j += 1;
        }
        false
    }

    /// Whether inserting these kernels would reuse a content hash.
    fn kernels_have_conflict(&self, new: &Vec<NewKernel>) -> (r: bool)
        ensures
            r == self@.kernels_conflict(kernel_models(new@)),
    {
        let ghost views = kernel_models(new@);
        let mut j: usize = 0;
        while j < new.len()
            invariant
                j <= new@.len(),
                views == kernel_models(new@),
                forall|a: int|
                    0 <= a < j ==> !self@.kernel_hash_exists((#[trigger] views[a]).hash),
                forall|a: int, c: int|
                    0 <= a < c < j ==> (#[trigger] views[a]).hash != (#[trigger] views[c]).hash,
            decreases new@.len() - j,
        {
            match self.find_kernel(&new[j].hash) {
                Some(i) => {
                    proof {
                        assert(0 <= i < self@.kernels.len() && self@.kernels[i as int].hash
                            == views[j as int].hash);
                        assert(self@.kernel_hash_exists(views[j as int].hash));
                    }
                    return true;
                },
                None => {},
            }
            let mut k: usize = 0;
            while k < j
                invariant
                    k <= j < new@.len(),
                    views == kernel_models(new@),
                    forall|a: int|
                        0 <= a < k ==> (#[trigger] views[a]).hash != views[j as int].hash,
                decreases j - k,
            {
                if bytes_eq(&new[k].hash, &new[j].hash) {
                    proof {
                        assert((views[k as int]).hash == (views[j as int]).hash);
                    }
                    return true;
                }
                k += 1;
            }
            j += 1;
        }
        false
    }

    /// Writes one block's rows and index entries as one atomic unit: every
    /// row takes the next free position of its kind in batch order, and a
    /// block record captures the pre-insert frontiers for a later rewind.
    /// `PositionConflict` exactly when a supplied hash already exists for
    /// its kind or repeats within the batch, with no effect on the store.
    pub fn insert_block_rows(
        &mut self,
        header_hash: &Vec<u8>,
        height: u64,
        new_outputs: &Vec<NewOutput>,
        new_inputs: &Vec<NewInput>,
        new_kernels: &Vec<NewKernel>,
    ) -> (r: Result<(), StorageError>)
        requires
            old(self).wf(),
            header_hash@.len() == HASH_LEN,
            forall|j: int|
                0 <= j < new_outputs@.len() ==> (#[trigger] new_outputs@[j])@.wf(),
            forall|j: int| 0 <= j < new_inputs@.len() ==> (#[trigger] new_inputs@[j])@.wf(),
            forall|j: int|
                0 <= j < new_kernels@.len() ==> (#[trigger] new_kernels@[j])@.wf(),
            old(self)@.height_above_tip(height),
            old(self)@.outputs.len() + new_outputs@.len() <= MAX_POSITIONS,
            old(self)@.inputs.len() + new_inputs@.len() <= MAX_POSITIONS,
            old(self)@.kernels.len() + new_kernels@.len() <= MAX_POSITIONS,
        ensures
            final(self).wf(),
            ({
                let b = block_of(
                    header_hash@,
                    height,
                    output_models(new_outputs@),
                    input_models(new_inputs@),
                    kernel_models(new_kernels@),
                );
                &&& (r is Ok <==> !old(self)@.block_conflict(b))
                &&& (r is Ok ==> final(self)@ == old(self)@.spec_insert_block(b))
                &&& (r is Err ==> *final(self) == *old(self) && r == Err::<
                    (),
                    StorageError,
                >(StorageError::PositionConflict))
            }),
    {
        let ghost b = block_of(
            header_hash@,
            height,
            output_models(new_outputs@),
            input_models(new_inputs@),
            kernel_models(new_kernels@),
        );
        if self.outputs_have_conflict(new_outputs) || self.inputs_have_conflict(new_inputs)
            || self.kernels_have_conflict(new_kernels) {
            return Err(StorageError::PositionConflict);
        }
        let ghost pre = *self;
        let out_base = self.outputs.len();
        let mut j: usize = 0;
        while j < new_outputs.len()
            invariant
                j <= new_outputs@.len(),
                out_base == pre.outputs@.len(),
                out_base + new_outputs@.len() <= MAX_POSITIONS,
                self.outputs@.len() == out_base + j,
                self.outputs_by_position@.len() == out_base + j,
                forall|k: int| 0 <= k < out_base ==> self.outputs@[k] == pre.outputs@[k],
                forall|k: int|
                    0 <= k < out_base ==> self.outputs_by_position@[k]
                        == pre.outputs_by_position@[k],
                forall|k: int|
                    0 <= k < j ==> (#[trigger] self.outputs@[out_base + k])@ == (
                    OutputRowModel {
                        output: Some(new_outputs@[k]@.payload),
                        header_hash: header_hash@,
                        mmr_position: (out_base + k) as u32,
                        hash: new_outputs@[k]@.hash,
                        witness_hash: new_outputs@[k]@.witness_hash,
                        mined_height: height,
                    }),
                forall|k: int|
                    0 <= k < j ==> (#[trigger] self.outputs_by_position@[out_base + k])@
                        == new_outputs@[k]@.hash,
                self.inputs == pre.inputs,
                self.kernels == pre.kernels,
                self.inputs_by_position == pre.inputs_by_position,
                self.kernels_by_position == pre.kernels_by_position,
                self.blocks == pre.blocks,
            decreases new_outputs@.len() - j,
        {
            let n = &new_outputs[j];
            let pos = out_base + j;
            let row = TransactionOutputRowData {
                output: Some(clone_bytes(&n.payload)),
                header_hash: clone_bytes(header_hash),
                mmr_position: pos as u32,
                hash: clone_bytes(&n.hash),
                witness_hash: clone_bytes(&n.witness_hash),
                mined_height: height,
            };
            self.outputs.push(row);
            self.outputs_by_position.push(clone_bytes(&n.hash));
            j += 1;
        }
        let ghost mid1 = *self;
        let in_base = self.inputs.len();
        let mut j2: usize = 0;
        while j2 < new_inputs.len()
            invariant
                j2 <= new_inputs@.len(),
                in_base == pre.inputs@.len(),
                in_base + new_inputs@.len() <= MAX_POSITIONS,
                self.inputs@.len() == in_base + j2,
                self.inputs_by_position@.len() == in_base + j2,
                forall|k: int| 0 <= k < in_base ==> self.inputs@[k] == pre.inputs@[k],
                forall|k: int|
                    0 <= k < in_base ==> self.inputs_by_position@[k]
                        == pre.inputs_by_position@[k],
                forall|k: int|
                    0 <= k < j2 ==> (#[trigger] self.inputs@[in_base + k])@ == (InputRowModel {
                        input: new_inputs@[k]@.payload,
                        header_hash: header_hash@,
                        mmr_position: (in_base + k) as u32,
                        hash: new_inputs@[k]@.hash,
                    }),
                forall|k: int|
                    0 <= k < j2 ==> (#[trigger] self.inputs_by_position@[in_base + k])@
                        == new_inputs@[k]@.hash,
                self.outputs == mid1.outputs,
                self.outputs_by_position == mid1.outputs_by_position,
                self.kernels == pre.kernels,
                self.kernels_by_position == pre.kernels_by_position,
                self.blocks == pre.blocks,
            decreases new_inputs@.len() - j2,
        {
            let n = &new_inputs[j2];
            let pos = in_base + j2;
            let row = TransactionInputRowData {
                input: clone_bytes(&n.payload),
                header_hash: clone_bytes(header_hash),
                mmr_position: pos as u32,
                hash: clone_bytes(&n.hash),
            };
            self.inputs.push(row);
            self.inputs_by_position.push(clone_bytes(&n.hash));
            j2 += 1;
        }
        let ghost mid2 = *self;
        let kern_base = self.kernels.len();
        let mut j3: usize = 0;
        while j3 < new_kernels.len()
            invariant
                j3 <= new_kernels@.len(),
                kern_base == pre.kernels@.len(),
                kern_base + new_kernels@.len() <= MAX_POSITIONS,
                self.kernels@.len() == kern_base + j3,
                self.kernels_by_position@.len() == kern_base + j3,
                forall|k: int| 0 <= k < kern_base ==> self.kernels@[k] == pre.kernels@[k],
                forall|k: int|
                    0 <= k < kern_base ==> self.kernels_by_position@[k]
                        == pre.kernels_by_position@[k],
                forall|k: int|
                    0 <= k < j3 ==> (#[trigger] self.kernels@[kern_base + k])@ == (
                    KernelRowModel {
                        kernel: new_kernels@[k]@.payload,
                        header_hash: header_hash@,
                        mmr_position: (kern_base + k) as u32,
                        hash: new_kernels@[k]@.hash,
                    }),
                forall|k: int|
                    0 <= k < j3 ==> (#[trigger] self.kernels_by_position@[kern_base + k])@
                        == new_kernels@[k]@.hash,
                self.outputs == mid1.outputs,
                self.outputs_by_position == mid1.outputs_by_position,
                self.inputs == mid2.inputs,
                self.inputs_by_position == mid2.inputs_by_position,
                self.blocks == pre.blocks,
            decreases new_kernels@.len() - j3,
        {
            let n = &new_kernels[j3];
            let pos = kern_base + j3;
            let row = TransactionKernelRowData {
                kernel: clone_bytes(&n.payload),
                header_hash: clone_bytes(header_hash),
                mmr_position: pos as u32,
                hash: clone_bytes(&n.hash),
            };
            self.kernels.push(row);
            self.kernels_by_position.push(clone_bytes(&n.hash));
            j3 += 1;
        }
        self.blocks.push(
            BlockRecord {
                header_hash: clone_bytes(header_hash),
                height,
                output_start: out_base,
                input_start: in_base,
                kernel_start: kern_base,
            },
        );
        proof {
            assert(self@.outputs =~= pre@.outputs + new_output_rows(
                out_base as int,
                header_hash@,
                height,
                b.outputs,
            ));
            assert(self@.inputs =~= pre@.inputs + new_input_rows(
                in_base as int,
                header_hash@,
                b.inputs,
            ));
            assert(self@.kernels =~= pre@.kernels + new_kernel_rows(
                kern_base as int,
                header_hash@,
                b.kernels,
            ));
            assert(self@.blocks =~= pre@.blocks.push(
                BlockRecordModel {
                    header_hash: header_hash@,
                    height,
                    output_start: out_base as int,
                    input_start: in_base as int,
                    kernel_start: kern_base as int,
                },
            ));
            assert(self@ =~= pre@.spec_insert_block(b));
            lemma_insert_block_wf(pre@, b);
            assert forall|i: int| 0 <= i < self@.outputs.len() implies (
            #[trigger] self.position_index(EntityKind::Output)[i]) == self@.outputs[i].hash by {
                if i < out_base {
                    assert(self.outputs_by_position@[i] == pre.outputs_by_position@[i]);
                    assert(pre.position_index(EntityKind::Output)[i] == pre@.outputs[i].hash);
                } else {
                    let k = i - out_base;
                    assert(self.outputs_by_position@[out_base + k]@ == new_outputs@[k]@.hash);
                }
            }
            assert forall|i: int| 0 <= i < self@.inputs.len() implies (
            #[trigger] self.position_index(EntityKind::Input)[i]) == self@.inputs[i].hash by {
                if i < in_base {
                    assert(self.inputs_by_position@[i] == pre.inputs_by_position@[i]);
                    assert(pre.position_index(EntityKind::Input)[i] == pre@.inputs[i].hash);
                } else {
                    let k = i - in_base;
                    assert(self.inputs_by_position@[in_base + k]@ == new_inputs@[k]@.hash);
                }
            }
            assert forall|i: int| 0 <= i < self@.kernels.len() implies (
            #[trigger] self.position_index(EntityKind::Kernel)[i]) == self@.kernels[i].hash by {
                if i < kern_base {
                    assert(self.kernels_by_position@[i] == pre.kernels_by_position@[i]);
                    assert(pre.position_index(EntityKind::Kernel)[i] == pre@.kernels[i].hash);
                } else {
                    let k = i - kern_base;
                    assert(self.kernels_by_position@[kern_base + k]@ == new_kernels@[k]@.hash);
                }
            }
            assert(self.wf());
        }
        Ok(())
    }
}


/// The first index at or after `i` of a block above height `h`, or the
/// length where none is.
pub open spec fn first_above_from(blocks: Seq<BlockRecordModel>, h: u64, i: int) -> int
    decreases blocks.len() - i when 0 <= i <= blocks.len()
{
    if i >= blocks.len() {
        i
    } else if blocks[i].height > h {
        i
    } else {
        first_above_from(blocks, h, i + 1)
    }
}

/// Bounds and meaning of `first_above_from`: everything before the result
/// lies at or below `h`, and the result itself, where it exists, lies above.
pub proof fn lemma_first_above_from(blocks: Seq<BlockRecordModel>, h: u64, i: int)
    requires
        0 <= i <= blocks.len(),
    ensures
        i <= first_above_from(blocks, h, i) <= blocks.len(),
        forall|k: int|
            i <= k < first_above_from(blocks, h, i) ==> (#[trigger] blocks[k]).height <= h,
        first_above_from(blocks, h, i) < blocks.len() ==> blocks[first_above_from(
            blocks,
            h,
            i,
        )].height > h,
    decreases blocks.len() - i,
{
    if i < blocks.len() && !(blocks[i].height > h) {
        lemma_first_above_from(blocks, h, i + 1);
    }
}

/// A scan that stopped at `j` found the first block above `h`.
pub proof fn lemma_first_above_char(blocks: Seq<BlockRecordModel>, h: u64, i: int, j: int)
    requires
        0 <= i <= j <= blocks.len(),
        forall|k: int| i <= k < j ==> (#[trigger] blocks[k]).height <= h,
        j == blocks.len() || blocks[j].height > h,
    ensures
        first_above_from(blocks, h, i) == j,
    decreases j - i,
{
    if i < j {
        lemma_first_above_char(blocks, h, i + 1, j);
    }
}

impl StoreModel {
    /// The index of the first block a rewind to height `h` removes.
    pub open spec fn rewind_point(self, h: u64) -> int {
        first_above_from(self.blocks, h, 0)
    }

    /// The store after unwinding to height `h`: every block above `h` is
    /// removed together with all rows and index entries it introduced, so
    /// each kind's frontier returns to what it was when the first removed
    /// block arrived.
    pub open spec fn spec_rewind(self, h: u64) -> StoreModel {
        let j = self.rewind_point(h);
        if j >= self.blocks.len() {
            self
        } else {
            StoreModel {
                outputs: self.outputs.subrange(0, self.blocks[j].output_start),
                inputs: self.inputs.subrange(0, self.blocks[j].input_start),
                kernels: self.kernels.subrange(0, self.blocks[j].kernel_start),
                blocks: self.blocks.subrange(0, j),
            }
        }
    }
}

/// Unwinding a well-formed store keeps it well formed and leaves only
/// blocks at or below the rewind height.
pub proof fn lemma_rewind_wf(pre: StoreModel, h: u64)
    requires
        pre.wf(),
    ensures
        pre.spec_rewind(h).wf(),
        forall|i: int|
            0 <= i < pre.spec_rewind(h).blocks.len() ==> (#[trigger] pre.spec_rewind(
                h,
            ).blocks[i]).height <= h,
{
    lemma_first_above_from(pre.blocks, h, 0);
    let j = pre.rewind_point(h);
    if j < pre.blocks.len() {
        let post = pre.spec_rewind(h);
        assert forall|i: int| 0 <= i < post.blocks.len() implies {
            &&& (#[trigger] post.blocks[i]).header_hash.len() == HASH_LEN
            &&& 0 <= post.blocks[i].output_start <= post.outputs.len()
            &&& 0 <= post.blocks[i].input_start <= post.inputs.len()
            &&& 0 <= post.blocks[i].kernel_start <= post.kernels.len()
        } by {
            assert(pre.blocks[i].output_start <= pre.blocks[j].output_start);
            assert(pre.blocks[i].input_start <= pre.blocks[j].input_start);
            assert(pre.blocks[i].kernel_start <= pre.blocks[j].kernel_start);
        }
    }
}

impl ChainStore {
    /// Deletes every row and index entry introduced by a block above
    /// `height`, restoring each kind's frontier to the first removed
    /// block's recorded start; a no-op when nothing lies above.
    pub fn rewind_to_height(&mut self, height: u64)
        requires
            old(self).wf(),
        ensures
            final(self).wf(),
            final(self)@ == old(self)@.spec_rewind(height),
    {
        let mut j: usize = 0;
        while j < self.blocks.len() && self.blocks[j].height <= height
            invariant
                j <= self@.blocks.len(),
                forall|k: int| 0 <= k < j ==> (#[trigger] self@.blocks[k]).height <= height,
            decreases self@.blocks.len() - j,
        {
            j += 1;
        }
        proof {
            lemma_first_above_char(self@.blocks, height, 0, j as int);
        }
        if j == self.blocks.len() {
            return;
        }
        let os = self.blocks[j].output_start;
        let ins = self.blocks[j].input_start;
        let ks = self.blocks[j].kernel_start;
        proof {
            assert((#[trigger] self@.blocks[j as int]).output_start == os as int);
            assert(0 <= self@.blocks[j as int].output_start <= self@.outputs.len());
            assert(0 <= self@.blocks[j as int].input_start <= self@.inputs.len());
            assert(0 <= self@.blocks[j as int].kernel_start <= self@.kernels.len());
        }
        self.outputs.truncate(os);
        self.outputs_by_position.truncate(os);
        self.inputs.truncate(ins);
        self.inputs_by_position.truncate(ins);
        self.kernels.truncate(ks);
        self.kernels_by_position.truncate(ks);
        self.blocks.truncate(j);
        proof {
            let pre = *old(self);
            assert(self@.outputs =~= pre@.outputs.subrange(0, os as int));
            assert(self@.inputs =~= pre@.inputs.subrange(0, ins as int));
            assert(self@.kernels =~= pre@.kernels.subrange(0, ks as int));
            assert(self@.blocks =~= pre@.blocks.subrange(0, j as int));
            assert(self@ =~= pre@.spec_rewind(height));
            lemma_rewind_wf(pre@, height);
            assert forall|i: int| 0 <= i < self@.outputs.len() implies (
            #[trigger] self.position_index(EntityKind::Output)[i]) == self@.outputs[i].hash by {
                assert(self.outputs_by_position@[i] == pre.outputs_by_position@[i]);
                assert(pre.position_index(EntityKind::Output)[i] == pre@.outputs[i].hash);
            }
            assert forall|i: int| 0 <= i < self@.inputs.len() implies (
            #[trigger] self.position_index(EntityKind::Input)[i]) == self@.inputs[i].hash by {
                assert(self.inputs_by_position@[i] == pre.inputs_by_position@[i]);
                assert(pre.position_index(EntityKind::Input)[i] == pre@.inputs[i].hash);
            }
            assert forall|i: int| 0 <= i < self@.kernels.len() implies (
            #[trigger] self.position_index(EntityKind::Kernel)[i]) == self@.kernels[i].hash by {
                assert(self.kernels_by_position@[i] == pre.kernels_by_position@[i]);
                assert(pre.position_index(EntityKind::Kernel)[i] == pre@.kernels[i].hash);
            }
            assert(self.wf());
        }
    }
}

/// The output rows a block with header `h` introduced, in position order.
pub open spec fn filter_outputs(rows: Seq<OutputRowModel>, h: Seq<u8>) -> Seq<OutputRowModel>
    decreases rows.len(),
{
    if rows.len() == 0 {
        Seq::empty()
    } else {
        let rest = filter_outputs(rows.drop_last(), h);
        if rows.last().header_hash == h {
            rest.push(rows.last())
        } else {
            rest
        }
    }
}

/// The input rows a block with header `h` introduced, in position order.
pub open spec fn filter_inputs(rows: Seq<InputRowModel>, h: Seq<u8>) -> Seq<InputRowModel>
    decreases rows.len(),
{
    if rows.len() == 0 {
        Seq::empty()
    } else {
        let rest = filter_inputs(rows.drop_last(), h);
        if rows.last().header_hash == h {
            rest.push(rows.last())
        } else {
            rest
        }
    }
}

/// The kernel rows a block with header `h` introduced, in position order.
pub open spec fn filter_kernels(rows: Seq<KernelRowModel>, h: Seq<u8>) -> Seq<KernelRowModel>
    decreases rows.len(),
{
    if rows.len() == 0 {
        Seq::empty()
    } else {
        let rest = filter_kernels(rows.drop_last(), h);
        if rows.last().header_hash == h {
            rest.push(rows.last())
        } else {
            rest
        }
    }
}

impl ChainStore {
    /// All rows each kind contributed to one block, as finite, restartable
    /// sequences sorted by position.
    pub fn fetch_by_block(&self, header_hash: &Vec<u8>) -> (r: (
        Vec<TransactionOutputRowData>,
        Vec<TransactionInputRowData>,
        Vec<TransactionKernelRowData>,
    ))
        requires
            self.wf(),
        ensures
            r.0@.map_values(|x: TransactionOutputRowData| x@) == filter_outputs(
                self@.outputs,
                header_hash@,
            ),
            r.1@.map_values(|x: TransactionInputRowData| x@) == filter_inputs(
                self@.inputs,
                header_hash@,
            ),
            r.2@.map_values(|x: TransactionKernelRowData| x@) == filter_kernels(
                self@.kernels,
                header_hash@,
            ),
    {
        let mut outs: Vec<TransactionOutputRowData> = Vec::new();
        let mut i: usize = 0;
        while i < self.outputs.len()
            invariant
                i <= self@.outputs.len(),
                outs@.map_values(|x: TransactionOutputRowData| x@) == filter_outputs(
                    self@.outputs.subrange(0, i as int),
                    header_hash@,
                ),
            decreases self@.outputs.len() - i,
        {
            proof {
                assert(self@.outputs.subrange(0, i + 1).drop_last() =~= self@.outputs.subrange(
                    0,
                    i as int,
                ));
                assert(self@.outputs.subrange(0, i + 1).last() == self@.outputs[i as int]);
            }
            if bytes_eq(&self.outputs[i].header_hash, header_hash) {
                outs.push(self.outputs[i].clone_row());
                proof {
                    assert(outs@.map_values(|x: TransactionOutputRowData| x@)
                        =~= filter_outputs(self@.outputs.subrange(0, i + 1), header_hash@));
                }
            }
            i += 1;
        }
        let mut ins: Vec<TransactionInputRowData> = Vec::new();
        let mut i2: usize = 0;
        while i2 < self.inputs.len()
            invariant
                i2 <= self@.inputs.len(),
                ins@.map_values(|x: TransactionInputRowData| x@) == filter_inputs(
                    self@.inputs.subrange(0, i2 as int),
                    header_hash@,
                ),
            decreases self@.inputs.len() - i2,
        {
            proof {
                assert(self@.inputs.subrange(0, i2 + 1).drop_last() =~= self@.inputs.subrange(
                    0,
                    i2 as int,
                ));
                assert(self@.inputs.subrange(0, i2 + 1).last() == self@.inputs[i2 as int]);
            }
            if bytes_eq(&self.inputs[i2].header_hash, header_hash) {
                ins.push(self.inputs[i2].clone_row());
                proof {
                    assert(ins@.map_values(|x: TransactionInputRowData| x@) =~= filter_inputs(
                        self@.inputs.subrange(0, i2 + 1),
                        header_hash@,
                    ));
                }
            }
            i2 += 1;
        }
        let mut kerns: Vec<TransactionKernelRowData> = Vec::new();
        let mut i3: usize = 0;
        while i3 < self.kernels.len()
            invariant
                i3 <= self@.kernels.len(),
                kerns@.map_values(|x: TransactionKernelRowData| x@) == filter_kernels(
                    self@.kernels.subrange(0, i3 as int),
                    header_hash@,
                ),
            decreases self@.kernels.len() - i3,
        {
            proof {
                assert(self@.kernels.subrange(0, i3 + 1).drop_last()
                    =~= self@.kernels.subrange(0, i3 as int));
                assert(self@.kernels.subrange(0, i3 + 1).last() == self@.kernels[i3 as int]);
            }
            if bytes_eq(&self.kernels[i3].header_hash, header_hash) {
                kerns.push(self.kernels[i3].clone_row());
                proof {
                    assert(kerns@.map_values(|x: TransactionKernelRowData| x@)
                        =~= filter_kernels(self@.kernels.subrange(0, i3 + 1), header_hash@));
                }
            }
            i3 += 1;
        }
        proof {
            assert(self@.outputs.subrange(0, self@.outputs.len() as int) =~= self@.outputs);
            assert(self@.inputs.subrange(0, self@.inputs.len() as int) =~= self@.inputs);
            assert(self@.kernels.subrange(0, self@.kernels.len() as int) =~= self@.kernels);
        }
        (outs, ins, kerns)
    }
}


/// Sequential application of new blocks from index `i` on: each block is
/// appended in order, and a single conflict aborts the whole chain.
pub open spec fn apply_chain(m: StoreModel, bs: Seq<NewBlockModel>, i: int) -> Option<StoreModel>
    decreases bs.len() - i when 0 <= i <= bs.len()
{
    if i >= bs.len() {
        Some(m)
    } else if m.block_conflict(bs[i]) {
        None
    } else {
        apply_chain(m.spec_insert_block(bs[i]), bs, i + 1)
    }
}

/// Output rows contributed by the blocks from index `i` on.
pub open spec fn total_outputs_from(bs: Seq<NewBlockModel>, i: int) -> int
    decreases bs.len() - i when 0 <= i <= bs.len()
{
    if i >= bs.len() {
        0
    } else {
        bs[i].outputs.len() + total_outputs_from(bs, i + 1)
    }
}

/// Input rows contributed by the blocks from index `i` on.
pub open spec fn total_inputs_from(bs: Seq<NewBlockModel>, i: int) -> int
    decreases bs.len() - i when 0 <= i <= bs.len()
{
    if i >= bs.len() {
        0
    } else {
        bs[i].inputs.len() + total_inputs_from(bs, i + 1)
    }
}

/// Kernel rows contributed by the blocks from index `i` on.
pub open spec fn total_kernels_from(bs: Seq<NewBlockModel>, i: int) -> int
    decreases bs.len() - i when 0 <= i <= bs.len()
{
    if i >= bs.len() {
        0
    } else {
        bs[i].kernels.len() + total_kernels_from(bs, i + 1)
    }
}

/// The row totals of a block suffix are never negative.
pub proof fn lemma_totals_nonneg(bs: Seq<NewBlockModel>, i: int)
    requires
        0 <= i <= bs.len(),
    ensures
        total_outputs_from(bs, i) >= 0,
        total_inputs_from(bs, i) >= 0,
        total_kernels_from(bs, i) >= 0,
    decreases bs.len() - i,
{
    if i < bs.len() {
        lemma_totals_nonneg(bs, i + 1);
    }
}

/// An owned copy of a list of primary keys.
fn clone_hash_list(v: &Vec<Vec<u8>>) -> (r: Vec<Vec<u8>>)
    ensures
        r@.len() == v@.len(),
        forall|i: int| 0 <= i < v@.len() ==> (#[trigger] r@[i])@ == v@[i]@,
{
    let mut r: Vec<Vec<u8>> = Vec::new();
    let mut i: usize = 0;
    while i < v.len()
        invariant
            i <= v@.len(),
            r@.len() == i,
            forall|k: int| 0 <= k < i ==> (#[trigger] r@[k])@ == v@[k]@,
        decreases v@.len() - i,
    {
        r.push(clone_bytes(&v[i]));
        i += 1;
    }
    r
}

impl ChainStore {
    /// A snapshot of the whole table set, model for model.
    fn clone_store(&self) -> (r: ChainStore)
        ensures
            r@ == self@,
            r.position_index(EntityKind::Output) == self.position_index(EntityKind::Output),
            r.position_index(EntityKind::Input) == self.position_index(EntityKind::Input),
            r.position_index(EntityKind::Kernel) == self.position_index(EntityKind::Kernel),
    {
        let mut outs: Vec<TransactionOutputRowData> = Vec::new();
        let mut i: usize = 0;
        while i < self.outputs.len()
            invariant
                i <= self.outputs@.len(),
                outs@.len() == i,
                forall|k: int| 0 <= k < i ==> (#[trigger] outs@[k])@ == self.outputs@[k]@,
            decreases self.outputs@.len() - i,
        {
            outs.push(self.outputs[i].clone_row());
            i += 1;
        }
        let mut ins: Vec<TransactionInputRowData> = Vec::new();
        let mut i2: usize = 0;
        while i2 < self.inputs.len()
            invariant
                i2 <= self.inputs@.len(),
                ins@.len() == i2,
                forall|k: int| 0 <= k < i2 ==> (#[trigger] ins@[k])@ == self.inputs@[k]@,
            decreases self.inputs@.len() - i2,
        {
            ins.push(self.inputs[i2].clone_row());
            i2 += 1;
        }
        let mut kerns: Vec<TransactionKernelRowData> = Vec::new();
        let mut i3: usize = 0;
        while i3 < self.kernels.len()
            invariant
                i3 <= self.kernels@.len(),
                kerns@.len() == i3,
                forall|k: int| 0 <= k < i3 ==> (#[trigger] kerns@[k])@ == self.kernels@[k]@,
            decreases self.kernels@.len() - i3,
        {
            kerns.push(self.kernels[i3].clone_row());
            i3 += 1;
        }
        let mut blks: Vec<BlockRecord> = Vec::new();
        let mut i4: usize = 0;
        while i4 < self.blocks.len()
            invariant
                i4 <= self.blocks@.len(),
                blks@.len() == i4,
                forall|k: int| 0 <= k < i4 ==> (#[trigger] blks@[k])@ == self.blocks@[k]@,
            decreases self.blocks@.len() - i4,
        {
            let bsrc = &self.blocks[i4];
            blks.push(
                BlockRecord {
                    header_hash: clone_bytes(&bsrc.header_hash),
                    height: bsrc.height,
                    output_start: bsrc.output_start,
                    input_start: bsrc.input_start,
                    kernel_start: bsrc.kernel_start,
                },
            );
            i4 += 1;
        }
        let r = ChainStore {
            outputs: outs,
            inputs: ins,
            kernels: kerns,
            outputs_by_position: clone_hash_list(&self.outputs_by_position),
            inputs_by_position: clone_hash_list(&self.inputs_by_position),
            kernels_by_position: clone_hash_list(&self.kernels_by_position),
            blocks: blks,
        };
        proof {
            assert(r@.outputs =~= self@.outputs);
            assert(r@.inputs =~= self@.inputs);
            assert(r@.kernels =~= self@.kernels);
            assert(r@.blocks =~= self@.blocks);
            assert(r@ =~= self@);
            assert(r.position_index(EntityKind::Output) =~= self.position_index(
                EntityKind::Output,
            ));
            assert(r.position_index(EntityKind::Input) =~= self.position_index(
                EntityKind::Input,
            ));
            assert(r.position_index(EntityKind::Kernel) =~= self.position_index(
                EntityKind::Kernel,
            ));
        }
        r
    }

    /// Executes one reorg as a single all-or-nothing commit: unwind to the
    /// common ancestor, then replay the winning blocks in height order. A
    /// conflict at any step leaves the pre-reorg state exactly as it was;
    /// no partial rewind is ever observable.
    pub fn reorg(&mut self, ancestor_height: u64, new_blocks: &Vec<NewBlock>) -> (r: Result<
        (),
        StorageError,
    >)
        requires
            old(self).wf(),
            forall|i: int| 0 <= i < new_blocks@.len() ==> (#[trigger] new_blocks@[i])@.wf(),
            forall|i: int|
                0 <= i < new_blocks@.len() ==> (#[trigger] new_blocks@[i])@.height
                    > ancestor_height,
            forall|i: int, j: int|
                0 <= i < j < new_blocks@.len() ==> (#[trigger] new_blocks@[i])@.height < (
                #[trigger] new_blocks@[j])@.height,
            old(self)@.spec_rewind(ancestor_height).outputs.len() + total_outputs_from(
                block_models(new_blocks@),
                0,
            ) <= MAX_POSITIONS,
            old(self)@.spec_rewind(ancestor_height).inputs.len() + total_inputs_from(
                block_models(new_blocks@),
                0,
            ) <= MAX_POSITIONS,
            old(self)@.spec_rewind(ancestor_height).kernels.len() + total_kernels_from(
                block_models(new_blocks@),
                0,
            ) <= MAX_POSITIONS,
        ensures
            final(self).wf(),
            ({
                let res = apply_chain(
                    old(self)@.spec_rewind(ancestor_height),
                    block_models(new_blocks@),
                    0,
                );
                &&& (r is Ok <==> res is Some)
                &&& (r is Ok ==> res == Some(final(self)@))
                &&& (r is Err ==> *final(self) == *old(self) && r == Err::<
                    (),
                    StorageError,
                >(StorageError::PositionConflict))
            }),
    {
        let ghost views = block_models(new_blocks@);
        let ghost start = old(self)@.spec_rewind(ancestor_height);
        let mut work = self.clone_store();
        proof {
            assert(work.wf());
            lemma_rewind_wf(self@, ancestor_height);
        }
        work.rewind_to_height(ancestor_height);
        let mut k: usize = 0;
        while k < new_blocks.len()
            invariant
                *self == *old(self),
                old(self).wf(),
                start == old(self)@.spec_rewind(ancestor_height),
                k <= views.len(),
                views == block_models(new_blocks@),
                work.wf(),
                apply_chain(start, views, 0) == apply_chain(work@, views, k as int),
                forall|t: int| 0 <= t < views.len() ==> (#[trigger] views[t]).wf(),
                forall|t: int, u: int|
                    0 <= t < u < views.len() ==> (#[trigger] views[t]).height < (
                    #[trigger] views[u]).height,
                forall|t: int|
                    k <= t < views.len() ==> work@.height_above_tip(
                        (#[trigger] views[t]).height,
                    ),
                work@.outputs.len() + total_outputs_from(views, k as int) <= MAX_POSITIONS,
                work@.inputs.len() + total_inputs_from(views, k as int) <= MAX_POSITIONS,
                work@.kernels.len() + total_kernels_from(views, k as int) <= MAX_POSITIONS,
            decreases views.len() - k,
        {
            let b = &new_blocks[k];
            let ghost pre_work = work@;
            proof {
                lemma_totals_nonneg(views, k as int + 1);
                assert(views[k as int] == b@);
                assert(b@.wf());
                assert forall|j: int| 0 <= j < b.outputs@.len() implies (
                #[trigger] b.outputs@[j])@.wf() by {
                    assert(b@.outputs[j] == b.outputs@[j]@);
                }
                assert forall|j: int| 0 <= j < b.inputs@.len() implies (
                #[trigger] b.inputs@[j])@.wf() by {
                    assert(b@.inputs[j] == b.inputs@[j]@);
                }
                assert forall|j: int| 0 <= j < b.kernels@.len() implies (
                #[trigger] b.kernels@[j])@.wf() by {
                    assert(b@.kernels[j] == b.kernels@[j]@);
                }
                assert(total_outputs_from(views, k as int) == views[k as int].outputs.len()
                    + total_outputs_from(views, k as int + 1));
                assert(total_inputs_from(views, k as int) == views[k as int].inputs.len()
                    + total_inputs_from(views, k as int + 1));
                assert(total_kernels_from(views, k as int) == views[k as int].kernels.len()
                    + total_kernels_from(views, k as int + 1));
                assert(work@.height_above_tip(views[k as int].height));
            }
            let res = work.insert_block_rows(
                &b.header_hash,
                b.height,
                &b.outputs,
                &b.inputs,
                &b.kernels,
            );
            proof {
                let bm = block_of(
                    b.header_hash@,
                    b.height,
                    output_models(b.outputs@),
                    input_models(b.inputs@),
                    kernel_models(b.kernels@),
                );
                assert(bm =~= views[k as int]);
                assert(bm == views[k as int]);
            }
            match res {
                Ok(_) => {
                    proof {
                        assert(!pre_work.block_conflict(views[k as int]));
                        assert(work@ == pre_work.spec_insert_block(views[k as int]));
                        assert(apply_chain(pre_work, views, k as int) == apply_chain(
                            work@,
                            views,
                            k as int + 1,
                        ));
                        assert forall|t: int| k + 1 <= t < views.len() implies
                            work@.height_above_tip((#[trigger] views[t]).height) by {
                            assert(work@.blocks.last().height == views[k as int].height);
                        }
                    }
                },
                Err(_) => {
                    proof {
                        assert(pre_work.block_conflict(views[k as int]));
                        assert(apply_chain(start, views, 0) is None);
                    }
                    return Err(StorageError::PositionConflict);
                },
            }
            k += 1;
        }
        *self = work;
        proof {
            assert(apply_chain(start, views, 0) == apply_chain(work@, views, views.len() as int));
            assert(apply_chain(work@, views, views.len() as int) == Some(work@));
        }
        Ok(())
    }
}

/// Over any sequence of successfully applied block inserts, the frontier of
/// each kind advances by exactly the number of rows of that kind the blocks
/// carried: no positions are skipped and none are handed out twice.
pub proof fn lemma_apply_chain_frontier(m: StoreModel, bs: Seq<NewBlockModel>, i: int)
    requires
        0 <= i <= bs.len(),
        apply_chain(m, bs, i) is Some,
    ensures
        apply_chain(m, bs, i)->Some_0.outputs.len() == m.outputs.len() + total_outputs_from(
            bs,
            i,
        ),
        apply_chain(m, bs, i)->Some_0.inputs.len() == m.inputs.len() + total_inputs_from(
            bs,
            i,
        ),
        apply_chain(m, bs, i)->Some_0.kernels.len() == m.kernels.len() + total_kernels_from(
            bs,
            i,
        ),
    decreases bs.len() - i,
{
    if i < bs.len() {
        lemma_apply_chain_frontier(m.spec_insert_block(bs[i]), bs, i + 1);
    }
}

/// Positions of every kind are exactly the dense range with no gaps and no
/// repeats: the row at index `i` of each table carries position `i`.
pub proof fn lemma_positions_dense(s: ChainStore)
    requires
        s.wf(),
    ensures
        forall|i: int|
            0 <= i < s@.outputs.len() ==> (#[trigger] s@.outputs[i]).mmr_position == i,
        forall|i: int| 0 <= i < s@.inputs.len() ==> (#[trigger] s@.inputs[i]).mmr_position == i,
        forall|i: int|
            0 <= i < s@.kernels.len() ==> (#[trigger] s@.kernels[i]).mmr_position == i,
{
}

/// The frontier after one successful block insert moves by exactly the
/// number of rows of each kind the block carried.
pub proof fn lemma_frontier_after_insert(pre: StoreModel, b: NewBlockModel)
    ensures
        pre.spec_insert_block(b).outputs.len() == pre.outputs.len() + b.outputs.len(),
        pre.spec_insert_block(b).inputs.len() == pre.inputs.len() + b.inputs.len(),
        pre.spec_insert_block(b).kernels.len() == pre.kernels.len() + b.kernels.len(),
{
}

/// Index consistency: every entry of a position index is the hash of the
/// primary row at that position, so scanning the index and resolving each
/// entry yields exactly the primary table in position order.
pub proof fn lemma_index_consistency(s: ChainStore)
    requires
        s.wf(),
    ensures
        s.position_index(EntityKind::Output).len() == s@.outputs.len(),
        s.position_index(EntityKind::Input).len() == s@.inputs.len(),
        s.position_index(EntityKind::Kernel).len() == s@.kernels.len(),
        forall|i: int|
            0 <= i < s@.outputs.len() ==> (#[trigger] s.position_index(
                EntityKind::Output,
            )[i]) == s@.outputs[i].hash,
        forall|i: int|
            0 <= i < s@.inputs.len() ==> (#[trigger] s.position_index(EntityKind::Input)[i])
                == s@.inputs[i].hash,
        forall|i: int|
            0 <= i < s@.kernels.len() ==> (#[trigger] s.position_index(
                EntityKind::Kernel,
            )[i]) == s@.kernels[i].hash,
{
}



/// One logical table edit, as a transactional batch lists them.
#[derive(Debug)]
pub enum Mutation {
    /// Append one block's rows, assigning the next free positions.
    InsertBlock(NewBlock),
    /// Clear a stored output's payload, keeping its hashes and position.
    PruneOutput(Vec<u8>),
    /// Delete every row a block above this height introduced.
    RewindToHeight(u64),
}

/// Mathematical image of one table edit.
#[verifier::ext_equal]
pub ghost enum MutationModel {
    InsertBlock(NewBlockModel),
    PruneOutput(Seq<u8>),
    RewindToHeight(u64),
}

impl View for Mutation {
    type V = MutationModel;

    open spec fn view(&self) -> MutationModel {
        match self {
            Mutation::InsertBlock(b) => MutationModel::InsertBlock(b@),
            Mutation::PruneOutput(h) => MutationModel::PruneOutput(h@),
            Mutation::RewindToHeight(h) => MutationModel::RewindToHeight(*h),
        }
    }
}

/// The models of a list of table edits.
pub open spec fn mutation_models(s: Seq<Mutation>) -> Seq<MutationModel> {
    s.map_values(|mu: Mutation| mu@)
}

/// The store after one table edit, or the exact error the edit surfaces: a
/// block that does not extend the chain, overflows the position space or
/// reuses a hash is a position conflict; pruning an unknown hash is a miss;
/// a rewind always applies.
pub open spec fn spec_apply_mutation(m: StoreModel, mu: MutationModel) -> Result<
    StoreModel,
    StorageError,
> {
    match mu {
        MutationModel::InsertBlock(b) => {
            if !m.height_above_tip(b.height) || m.outputs.len() + b.outputs.len()
                > MAX_POSITIONS || m.inputs.len() + b.inputs.len() > MAX_POSITIONS
                || m.kernels.len() + b.kernels.len() > MAX_POSITIONS || m.block_conflict(b) {
                Err(StorageError::PositionConflict)
            } else {
                Ok(m.spec_insert_block(b))
            }
        },
        MutationModel::PruneOutput(h) => {
            if m.output_hash_exists(h) {
                Ok(StoreModel { outputs: spec_prune_outputs(m.outputs, h), ..m })
            } else {
                Err(StorageError::NotFound)
            }
        },
        MutationModel::RewindToHeight(h) => Ok(m.spec_rewind(h)),
    }
}

/// The store after an ordered list of table edits from index `i` on, or the
/// error of the first edit that fails.
pub open spec fn spec_run(m: StoreModel, mus: Seq<MutationModel>, i: int) -> Result<
    StoreModel,
    StorageError,
>
    decreases mus.len() - i when 0 <= i <= mus.len()
{
    if i >= mus.len() {
        Ok(m)
    } else {
        match spec_apply_mutation(m, mus[i]) {
            Ok(next) => spec_run(next, mus, i + 1),
            Err(e) => Err(e),
        }
    }
}


impl ChainStore {
    /// Applies an ordered list of table edits as one atomic unit of work:
    /// either every edit applies, in order, or the first failing edit's
    /// error is surfaced with the store exactly as it was. Readers never
    /// observe a partial batch.
    pub fn run(&mut self, mutations: &Vec<Mutation>) -> (r: Result<(), StorageError>)
        requires
            old(self).wf(),
            forall|i: int|
                0 <= i < mutations@.len() ==> (match (#[trigger] mutations@[i])@ {
                    MutationModel::InsertBlock(b) => b.wf(),
                    _ => true,
                }),
        ensures
            final(self).wf(),
            ({
                let res = spec_run(old(self)@, mutation_models(mutations@), 0);
                &&& (r is Ok <==> res is Ok)
                &&& (r is Ok ==> res == Ok::<StoreModel, StorageError>(final(self)@))
                &&& (r matches Err(e) ==> *final(self) == *old(self) && res == Err::<
                    StoreModel,
                    StorageError,
                >(e))
            }),
    {
        let ghost mus = mutation_models(mutations@);
        let mut work = self.clone_store();
        proof {
            assert(work.wf());
        }
        let mut k: usize = 0;
        while k < mutations.len()
            invariant
                *self == *old(self),
                old(self).wf(),
                k <= mus.len(),
                mus == mutation_models(mutations@),
                work.wf(),
                spec_run(old(self)@, mus, 0) == spec_run(work@, mus, k as int),
                forall|i: int|
                    0 <= i < mutations@.len() ==> (match (#[trigger] mutations@[i])@ {
                        MutationModel::InsertBlock(b) => b.wf(),
                        _ => true,
                    }),
            decreases mus.len() - k,
        {
            let ghost pre_work = work@;
            proof {
                assert(mus[k as int] == mutations@[k as int]@);
            }
            match &mutations[k] {
                Mutation::InsertBlock(b) => {
                    let height_ok = work.blocks.len() == 0 || work.blocks[work.blocks.len()
                        - 1].height < b.height;
                    let out_fits = b.outputs.len() <= MAX_POSITIONS - work.outputs.len();
                    let in_fits = b.inputs.len() <= MAX_POSITIONS - work.inputs.len();
                    let kern_fits = b.kernels.len() <= MAX_POSITIONS - work.kernels.len();
                    proof {
                        assert(height_ok == pre_work.height_above_tip(b@.height));
                        assert(out_fits == (pre_work.outputs.len() + b@.outputs.len()
                            <= MAX_POSITIONS));
                        assert(in_fits == (pre_work.inputs.len() + b@.inputs.len()
                            <= MAX_POSITIONS));
                        assert(kern_fits == (pre_work.kernels.len() + b@.kernels.len()
                            <= MAX_POSITIONS));
                    }
                    if !(height_ok && out_fits && in_fits && kern_fits) {
                        proof {
                            assert(spec_apply_mutation(pre_work, mus[k as int]) == Err::<
                                StoreModel,
                                StorageError,
                            >(StorageError::PositionConflict));
                        }
                        return Err(StorageError::PositionConflict);
                    }
                    proof {
                        assert(b@.wf());
                        assert forall|j: int| 0 <= j < b.outputs@.len() implies (
                        #[trigger] b.outputs@[j])@.wf() by {
                            assert(b@.outputs[j] == b.outputs@[j]@);
                        }
                        assert forall|j: int| 0 <= j < b.inputs@.len() implies (
                        #[trigger] b.inputs@[j])@.wf() by {
                            assert(b@.inputs[j] == b.inputs@[j]@);
                        }
                        assert forall|j: int| 0 <= j < b.kernels@.len() implies (
                        #[trigger] b.kernels@[j])@.wf() by {
                            assert(b@.kernels[j] == b.kernels@[j]@);
                        }
                    }
                    let res = work.insert_block_rows(
                        &b.header_hash,
                        b.height,
                        &b.outputs,
                        &b.inputs,
                        &b.kernels,
                    );
                    proof {
                        let bm = block_of(
                            b.header_hash@,
                            b.height,
                            output_models(b.outputs@),
                            input_models(b.inputs@),
                            kernel_models(b.kernels@),
                        );
                        assert(bm =~= b@);
                        assert(bm == b@);
                    }
                    match res {
                        Ok(_) => {
                            proof {
                                assert(!pre_work.block_conflict(b@));
                                assert(work@ == pre_work.spec_insert_block(b@));
                                assert(spec_apply_mutation(pre_work, mus[k as int]) == Ok::<
                                    StoreModel,
                                    StorageError,
                                >(work@));
                            }
                        },
                        Err(_) => {
                            proof {
                                assert(pre_work.block_conflict(b@));
                                assert(spec_apply_mutation(pre_work, mus[k as int])
                                    == Err::<StoreModel, StorageError>(
                                    StorageError::PositionConflict,
                                ));
                            }
                            return Err(StorageError::PositionConflict);
                        },
                    }
                },
                Mutation::PruneOutput(h) => {
                    match work.prune_output(h) {
                        Ok(_) => {
                            proof {
                                assert(mus[k as int] == MutationModel::PruneOutput(h@));
                                assert(pre_work.output_hash_exists(h@));
                                assert(work@ == (StoreModel {
                                    outputs: spec_prune_outputs(pre_work.outputs, h@),
                                    ..pre_work
                                }));
                                assert(spec_apply_mutation(pre_work, mus[k as int]) == Ok::<
                                    StoreModel,
                                    StorageError,
                                >(work@));
                            }
                        },
                        Err(_) => {
                            proof {
                                assert(!pre_work.output_hash_exists(h@));
                                assert(spec_apply_mutation(pre_work, mus[k as int])
                                    == Err::<StoreModel, StorageError>(StorageError::NotFound));
                            }
                            return Err(StorageError::NotFound);
                        },
                    }
                },
                Mutation::RewindToHeight(h) => {
                    work.rewind_to_height(*h);
                    proof {
                        assert(spec_apply_mutation(pre_work, mus[k as int]) == Ok::<
                            StoreModel,
                            StorageError,
                        >(work@));
                    }
                },
            }
            k += 1;
        }
        *self = work;
        proof {
            assert(spec_run(work@, mus, mus.len() as int) == Ok::<StoreModel, StorageError>(
                work@,
            ));
        }
        Ok(())
    }
}

} // verus!
