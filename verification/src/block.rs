//! Basic blocks and tokens a [template](`crate::template::Template`) is made of.
use vstd::prelude::*;

use crate::span::{ByteSpan, Spanned};

verus! {

/// The kind of a block as recognized by the tokenizer.
#[derive(Debug, Clone, Copy, PartialEq, Eq, Hash, Structural)]
pub enum BlockHint {
    /// Starts a `Text` block
    Text,
    /// Starts a `Comment` block
    Comment,
    /// Starts an escaped block
    Escaped,
    /// Starts a `Variable` block
    Var,
    /// Starts a `Print` block
    Print,
    /// Starts a `If` block
    IfStart,
    /// Continues an `If` block with an `ElIf` block
    ElIf,
    /// Continues an `If` block with an `Else` block
    Else,
    /// End an `If` block
    IfEnd,
}

impl BlockHint {
    /// Whether this hint continues or closes an `if` block.
    pub open spec fn spec_is_if_subblock(self) -> bool {
        self is ElIf || self is Else || self is IfEnd
    }

    /// Whether this instruction is part of an `if` block (`elif`, `else` or `fi`).
    pub fn is_if_subblock(&self) -> (r: bool)
        ensures
            r == self.spec_is_if_subblock(),
    {
        matches!(self, BlockHint::ElIf | BlockHint::Else | BlockHint::IfEnd)
    }
}

/// An instruction that opens a new block.
#[derive(Debug, PartialEq, Eq)]
pub enum BlockKind {
    /// A `Text` block, that contains text that is copied to the output.
    Text,
    /// A `Comment` block, that contains text that is ignored.
    Comment,
    /// An escaped block, that contains escaped text that is copied to the output.
    Escaped(ByteSpan),
    /// A `Variable` block, that contains a variable name that is replaced with its value.
    Var(Var),
    /// A `Print` block, that contains text that is printed to the log.
    Print(ByteSpan),
    /// An `If` block, that contains a condition that is evaluated and compiles the block conditionally.
    If(If),
}

impl BlockKind {
    /// The hint that corresponds to a block kind.
    pub open spec fn spec_as_hint(self) -> BlockHint {
        match self {
            BlockKind::Text => BlockHint::Text,
            BlockKind::Comment => BlockHint::Comment,
            BlockKind::Escaped(_) => BlockHint::Escaped,
            BlockKind::Var(_) => BlockHint::Var,
            BlockKind::Print(_) => BlockHint::Print,
            BlockKind::If(_) => BlockHint::IfStart,
        }
    }

    /// Returns the corresponding hint for this block.
    pub fn as_hint(&self) -> (r: BlockHint)
        ensures
            r == self.spec_as_hint(),
    {
        match self {
            BlockKind::Text => BlockHint::Text,
            BlockKind::Comment => BlockHint::Comment,
            BlockKind::Escaped(_) => BlockHint::Escaped,
            BlockKind::Var(_) => BlockHint::Var,
            BlockKind::Print(_) => BlockHint::Print,
            BlockKind::If(_) => BlockHint::IfStart,
        }
    }
}

/// A block can be a single construct or open up a block that contains sub-blocks.
#[derive(Debug, PartialEq, Eq)]
pub struct Block {
    /// The span of this block.
    pub span: ByteSpan,
    /// The type of this block.
    pub kind: BlockKind,
}

impl Block {
    /// Creates a new block.
    pub fn new(span: ByteSpan, kind: BlockKind) -> (r: Self)
        ensures
            r == (Block { span, kind }),
    {
        Block { span, kind }
    }

    /// Returns the span of the block.
    pub fn span(&self) -> (r: &ByteSpan)
        ensures
            *r == self.span,
    {
        &self.span
    }

    /// Returns the type of this block.
    pub fn kind(&self) -> (r: &BlockKind)
        ensures
            *r == self.kind,
    {
        &self.kind
    }
}

/// The different sources for variable values.
#[derive(Debug, Clone, Copy, PartialEq, Eq, Hash, Structural)]
pub enum VarEnv {
    /// A variable that is defined by the system's environment.
    Environment,
    /// A variable that is defined in the profile.
    Profile,
    /// A variable that is defined for a specific dotfile.
    Dotfile,
}

impl VarEnv {
    /// The name under which the environment is displayed.
    pub open spec fn spec_name(self) -> Seq<char> {
        match self {
            VarEnv::Environment => "Environment"@,
            VarEnv::Profile => "Profile"@,
            VarEnv::Dotfile => "Dotfile"@,
        }
    }

    /// Returns the name under which the environment is displayed.
    pub fn name(&self) -> (r: &'static str)
        ensures
            r@ == self.spec_name(),
    {
        match self {
            VarEnv::Environment => "Environment",
            VarEnv::Profile => "Profile",
            VarEnv::Dotfile => "Dotfile",
        }
    }
}

/// An ordered set of variable sources, searched in order when resolving a variable.
#[derive(Debug, Clone, Copy, PartialEq, Eq, Hash)]
pub struct VarEnvSet(pub [Option<VarEnv>; 3]);

/// Whether `v` is one of the slots of `slots`.
pub open spec fn slots_contain(slots: Seq<Option<VarEnv>>, v: VarEnv) -> bool {
    exists|i: int| 0 <= i < slots.len() && slots[i] == Some(v)
}

/// The index of the first empty slot, if there is one.
pub open spec fn first_free_slot(slots: Seq<Option<VarEnv>>) -> Option<int>
    decreases slots.len(),
{
    if slots.len() == 0 {
        None
    } else if slots[0] is None {
        Some(0)
    } else {
        match first_free_slot(slots.drop_first()) {
            Some(i) => Some(i + 1),
            None => None,
        }
    }
}

/// The environments held by the slots, in slot order.
pub open spec fn slot_envs(slots: Seq<Option<VarEnv>>) -> Seq<VarEnv>
    decreases slots.len(),
{
    if slots.len() == 0 {
        seq![]
    } else {
        match slots[0] {
            Some(v) => seq![v] + slot_envs(slots.drop_first()),
            None => slot_envs(slots.drop_first()),
        }
    }
}

impl VarEnvSet {
    /// The slots of the set.
    pub open spec fn slots(self) -> Seq<Option<VarEnv>> {
        self.0@
    }

    /// The environments of the set, in the order they are searched.
    pub open spec fn spec_envs(self) -> Seq<VarEnv> {
        slot_envs(self.0@)
    }

    /// The set used when a variable names no environment: dotfile first, then profile.
    pub open spec fn spec_default() -> VarEnvSet {
        VarEnvSet([Some(VarEnv::Dotfile), Some(VarEnv::Profile), None])
    }

    /// Creates an empty `VarEnvSet`.
    pub fn empty() -> (r: Self)
        ensures
            r.slots() == seq![None::<VarEnv>, None, None],
    {
        let r = VarEnvSet([None, None, None]);
        assert(r.0@ =~= seq![None::<VarEnv>, None, None]);
        r
    }

    /// Creates the default set: dotfile variables first, then profile variables.
    pub fn default_set() -> (r: Self)
        ensures
            r == Self::spec_default(),
    {
        VarEnvSet([Some(VarEnv::Dotfile), Some(VarEnv::Profile), None])
    }

    /// Adds `value` to the set if it is not already present and a slot is free.
    ///
    /// Returns whether it was added.
    pub fn add(&mut self, value: VarEnv) -> (r: bool)
        ensures
            slots_contain(old(self).slots(), value) ==> !r && *final(self) == *old(self),
            !slots_contain(old(self).slots(), value) ==> match first_free_slot(old(self).slots()) {
                Some(i) => r && final(self).slots() == old(self).slots().update(i, Some(value)),
                None => !r && *final(self) == *old(self),
            },
    {
        let mut i: usize = 0;
        while i < 3
            invariant
                0 <= i <= 3,
                *self == *old(self),
                forall|k: int| 0 <= k < i ==> self.0@[k] != Some(value),
            decreases 3 - i,
        {
            if let Some(v) = self.0[i] {
                if v == value {
                    return false;
                }
            }
            i = i + 1;
        }
        assert(!slots_contain(old(self).slots(), value));
        let mut j: usize = 0;
        assert(self.0@.subrange(0, 3) =~= self.0@);
        while j < 3
            invariant
                0 <= j <= 3,
                *self == *old(self),
                !slots_contain(old(self).slots(), value),
                forall|k: int| 0 <= k < j ==> self.0@[k] is Some,
                first_free_slot(self.0@) == (match first_free_slot(self.0@.subrange(j as int, 3)) {
                    Some(x) => Some(x + j),
                    None => None::<int>,
                }),
            decreases 3 - j,
        {
            assert(self.0@.subrange(j as int, 3).drop_first() =~= self.0@.subrange(j + 1, 3));
            if self.0[j].is_none() {
                self.0[j] = Some(value);
                return true;
            }
            j = j + 1;
        }
        assert(self.0@.subrange(3, 3).len() == 0);
        false
    }

    /// Returns the environments that are defined, in search order.
    pub fn envs(&self) -> (r: Vec<VarEnv>)
        ensures
            r@ == self.spec_envs(),
    {
        let mut out: Vec<VarEnv> = Vec::new();
        let mut i: usize = 3;
        let ghost s = self.0@;
        // Collect from the back so that the result is built as `slot_envs` of a suffix.
        let mut rev: Vec<VarEnv> = Vec::new();
        while i > 0
            invariant
                0 <= i <= 3,
                s == self.0@,
                s.len() == 3,
                rev@.reverse() == slot_envs(s.subrange(i as int, 3)),
            decreases i,
        {
            i = i - 1;
            assert(s.subrange(i as int, 3).drop_first() =~= s.subrange(i + 1, 3));
            if let Some(v) = self.0[i] {
                rev.push(v);
                assert(rev@.reverse() =~= seq![v] + slot_envs(s.subrange(i + 1, 3)));
            }
        }
        assert(s.subrange(0, 3) =~= s);
        let mut k: usize = rev.len();
        while k > 0
            invariant
                0 <= k <= rev.len(),
                out@ == rev@.reverse().subrange(0, rev.len() - k),
            decreases k,
        {
            k = k - 1;
            out.push(rev[k]);
            assert(out@ =~= rev@.reverse().subrange(0, rev.len() - k));
        }
        assert(rev@.reverse().subrange(0, rev.len() as int) =~= rev@.reverse());
        out
    }

    /// Returns the number of environments that are defined.
    pub fn len(&self) -> (r: usize)
        ensures
            r == self.spec_envs().len(),
    {
        self.envs().len()
    }

    /// Returns the capacity of the set.
    pub fn capacity(&self) -> (r: usize)
        ensures
            r == 3,
    {
        3
    }
}

/// A variable reference in a template.
#[derive(Debug, Clone, Copy, PartialEq, Eq, Hash)]
pub struct Var {
    /// The environments searched for the variable, in order.
    pub envs: VarEnvSet,
    /// The span of the variable name.
    pub name: ByteSpan,
}

/// An if block.
#[derive(Debug, PartialEq, Eq)]
pub struct If {
    /// The head of the if statement (`{{@if {{VAR}}}}`) with its nested blocks.
    pub head: (Spanned<IfExpr>, Vec<Block>),
    /// All elif statements (`{{@elif {{VAR}}}}`) with their nested blocks.
    pub elifs: Vec<(Spanned<IfExpr>, Vec<Block>)>,
    /// The else statement (`{{@else}}`) with its nested blocks.
    pub els: Option<(ByteSpan, Vec<Block>)>,
    /// The closing fi statement (`{{@fi}}`).
    pub end: ByteSpan,
}

/// The comparison operators of if expressions.
#[derive(Debug, Clone, Copy, PartialEq, Eq, Hash, Structural)]
pub enum IfOp {
    /// Check for equality.
    Eq,
    /// Check for inequality.
    NotEq,
}

impl IfOp {
    /// The result of comparing `lhs` with `rhs`.
    pub open spec fn spec_eval(self, lhs: Seq<u8>, rhs: Seq<u8>) -> bool {
        match self {
            IfOp::Eq => lhs == rhs,
            IfOp::NotEq => lhs != rhs,
        }
    }

    /// Evaluates an if comparison on the bytes of both sides.
    pub fn eval(&self, lhs: &[u8], rhs: &[u8]) -> (r: bool)
        ensures
            r == self.spec_eval(lhs@, rhs@),
    {
        let same = crate::scan::bytes_eq(lhs, rhs);
        match self {
            IfOp::Eq => same,
            IfOp::NotEq => !same,
        }
    }
}

/// The different if expressions.
#[derive(Debug, Clone, Copy, PartialEq, Eq, Hash)]
pub enum IfExpr {
    /// Compares the value of a variable with a literal.
    Compare {
        /// Left hand side of the compare operation.
        var: Var,
        /// Compare operator.
        op: IfOp,
        /// Span of the literal on the right hand side.
        other: ByteSpan,
    },
    /// Checks that a value for the variable exists.
    Exists {
        /// Variable to check existence for.
        var: Var,
    },
    /// Checks that no value for the variable exists.
    NotExists {
        /// Variable to check absence for.
        var: Var,
    },
}

/// The mathematical content of a [`Block`].
pub struct BlockData {
    /// The span of the block.
    pub span: ByteSpan,
    /// The kind of the block.
    pub kind: KindData,
}

/// The mathematical content of a [`BlockKind`].
pub enum KindData {
    /// Text copied to the output.
    Text,
    /// A comment.
    Comment,
    /// Escaped text, with the span of its inside.
    Escaped(ByteSpan),
    /// A variable.
    Var(Var),
    /// Text printed to the log, with the span of its inside.
    Print(ByteSpan),
    /// An if block.
    If(IfData),
}

/// The mathematical content of an [`If`].
pub struct IfData {
    /// Span and expression of the head, with its nested blocks.
    pub head: (ByteSpan, IfExpr, Seq<BlockData>),
    /// Span and expression of each elif, with its nested blocks.
    pub elifs: Seq<(ByteSpan, IfExpr, Seq<BlockData>)>,
    /// Span of the else, with its nested blocks.
    pub els: Option<(ByteSpan, Seq<BlockData>)>,
    /// Span of the closing fi.
    pub end: ByteSpan,
}

/// The mathematical content of a sequence of blocks.
pub open spec fn blocks_data(s: Seq<Block>) -> Seq<BlockData>
    decreases s,
{
    if s.len() == 0 {
        seq![]
    } else {
        seq![block_data(s[0])] + blocks_data(s.subrange(1, s.len() as int))
    }
}

/// The mathematical content of the elif branches of an if block.
pub open spec fn elifs_data(s: Seq<(Spanned<IfExpr>, Vec<Block>)>) -> Seq<(ByteSpan, IfExpr, Seq<BlockData>)>
    decreases s,
{
    if s.len() == 0 {
        seq![]
    } else {
        seq![(s[0].0.span, s[0].0.value, blocks_data(s[0].1@))] + elifs_data(s.subrange(1, s.len() as int))
    }
}

/// The mathematical content of an if block.
pub open spec fn if_data(i: If) -> IfData
    decreases i,
{
    IfData {
        head: (i.head.0.span, i.head.0.value, blocks_data(i.head.1@)),
        elifs: elifs_data(i.elifs@),
        els: match i.els {
            Some(e) => Some((e.0, blocks_data(e.1@))),
            None => None,
        },
        end: i.end,
    }
}

/// The mathematical content of a block.
pub open spec fn block_data(b: Block) -> BlockData
    decreases b,
{
    BlockData {
        span: b.span,
        kind: match b.kind {
            BlockKind::Text => KindData::Text,
            BlockKind::Comment => KindData::Comment,
            BlockKind::Escaped(s) => KindData::Escaped(s),
            BlockKind::Var(v) => KindData::Var(v),
            BlockKind::Print(s) => KindData::Print(s),
            BlockKind::If(i) => KindData::If(if_data(i)),
        },
    }
}

/// Appending a block appends its content.
pub proof fn lemma_blocks_data_push(s: Seq<Block>, b: Block)
    ensures
        blocks_data(s.push(b)) == blocks_data(s).push(block_data(b)),
    decreases s.len(),
{
    if s.len() == 0 {
        assert(s.push(b).subrange(1, 1) =~= Seq::<Block>::empty());
        assert(blocks_data(s.push(b).subrange(1, 1)) == Seq::<BlockData>::empty());
        assert(blocks_data(s) == Seq::<BlockData>::empty());
        assert(blocks_data(s.push(b)) =~= blocks_data(s).push(block_data(b)));
    } else {
        let t = s.subrange(1, s.len() as int);
        lemma_blocks_data_push(t, b);
        assert(s.push(b).subrange(1, (s.len() + 1) as int) =~= t.push(b));
        assert(blocks_data(s.push(b)) =~= blocks_data(s).push(block_data(b)));
    }
}

/// Prepending an elif branch prepends its content.
pub proof fn lemma_elifs_data_prepend(x: (Spanned<IfExpr>, Vec<Block>), s: Seq<(Spanned<IfExpr>, Vec<Block>)>)
    ensures
        elifs_data(seq![x] + s) == seq![(x.0.span, x.0.value, blocks_data(x.1@))] + elifs_data(s),
{
    assert((seq![x] + s).subrange(1, (s.len() + 1) as int) =~= s);
}

/// The content of a sequence of blocks holds the content of each block at its index.
pub proof fn lemma_blocks_data_index(s: Seq<Block>)
    ensures
        blocks_data(s).len() == s.len(),
        forall|i: int| 0 <= i < s.len() ==> #[trigger] blocks_data(s)[i] == block_data(s[i]),
    decreases s.len(),
{
    if s.len() > 0 {
        let t = s.subrange(1, s.len() as int);
        lemma_blocks_data_index(t);
        assert forall|i: int| 0 <= i < s.len() implies #[trigger] blocks_data(s)[i] == block_data(s[i]) by {
            if i > 0 {
                assert(t[i - 1] == s[i]);
            }
        }
    }
}

/// The content of the elif branches holds the content of each branch at its index.
pub proof fn lemma_elifs_data_index(s: Seq<(Spanned<IfExpr>, Vec<Block>)>)
    ensures
        elifs_data(s).len() == s.len(),
        forall|i: int| 0 <= i < s.len() ==> #[trigger] elifs_data(s)[i] == (s[i].0.span, s[i].0.value, blocks_data(s[i].1@)),
    decreases s.len(),
{
    if s.len() > 0 {
        let t = s.subrange(1, s.len() as int);
        lemma_elifs_data_index(t);
        assert forall|i: int| 0 <= i < s.len() implies #[trigger] elifs_data(s)[i] == (s[i].0.span, s[i].0.value, blocks_data(s[i].1@)) by {
            if i > 0 {
                assert(t[i - 1] == s[i]);
            }
        }
    }
}

} // verus!
