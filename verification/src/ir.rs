//! The intermediate representation: named blocks of ops, annotations and
//! an optional source-position map, with the linker that merges programs.
use crate::names::{assoc_map, lemma_assoc_map_contains, NameMap, ViewClone};
use crate::value::{Value, ValueView};
use vstd::prelude::*;

verus! {

/// Errors of the block store itself.
#[derive(Debug, Clone, PartialEq, Eq)]
pub enum IRError {
    BlockAlreadyExists,
}

/// Whether a block's body is memoized per scope or re-run on every call.
#[derive(Debug, Clone, Copy, PartialEq, Eq, Structural)]
pub enum BlockRunType {
    Once,
    Unique,
}

/// One instruction of a block's body.
#[derive(Debug)]
pub enum IRCode {
    PutValue(Value),
    LocalBlock(String, BlockRunType, Vec<IRCode>),
    Call(String),
    While(String),
    If(String),
    Return,
    ReturnLocal,
}

/// The mathematical shape of an instruction.
pub enum CodeView {
    PutValue(ValueView),
    LocalBlock(Seq<char>, BlockRunType, Seq<CodeView>),
    Call(Seq<char>),
    While(Seq<char>),
    If(Seq<char>),
    Return,
    ReturnLocal,
}

pub open spec fn code_view(c: IRCode) -> CodeView
    decreases c,
{
    match c {
        IRCode::PutValue(v) => CodeView::PutValue(v@),
        IRCode::LocalBlock(n, t, v) => CodeView::LocalBlock(n@, t, codes_view(v@)),
        IRCode::Call(n) => CodeView::Call(n@),
        IRCode::While(n) => CodeView::While(n@),
        IRCode::If(n) => CodeView::If(n@),
        IRCode::Return => CodeView::Return,
        IRCode::ReturnLocal => CodeView::ReturnLocal,
    }
}

pub open spec fn codes_view(s: Seq<IRCode>) -> Seq<CodeView>
    decreases s,
{
    if s.len() == 0 {
        Seq::empty()
    } else {
        codes_view(s.drop_last()).push(code_view(s.last()))
    }
}

/// The view of a sequence of ops is the sequence of their views.
pub proof fn lemma_codes_view(s: Seq<IRCode>)
    ensures
        codes_view(s).len() == s.len(),
        forall|i: int| 0 <= i < s.len() ==> codes_view(s)[i] == code_view(s[i]),
    decreases s.len(),
{
    if s.len() > 0 {
        lemma_codes_view(s.drop_last());
        assert(forall|i: int| 0 <= i < s.len() - 1 ==> s.drop_last()[i] == s[i]);
    }
}

impl View for IRCode {
    type V = CodeView;

    open spec fn view(&self) -> CodeView {
        code_view(*self)
    }
}

impl ViewClone for IRCode {
    fn view_clone(&self) -> (r: Self)
        ensures
            r@ == self@,
        decreases self,
    {
        match self {
            IRCode::PutValue(v) => IRCode::PutValue(v.clone()),
            IRCode::LocalBlock(n, t, v) => {
                let code = clone_codes(v);
                IRCode::LocalBlock(n.clone(), *t, code)
            },
            IRCode::Call(n) => IRCode::Call(n.clone()),
            IRCode::While(n) => IRCode::While(n.clone()),
            IRCode::If(n) => IRCode::If(n.clone()),
            IRCode::Return => IRCode::Return,
            IRCode::ReturnLocal => IRCode::ReturnLocal,
        }
    }
}

/// A copy of a list of ops with the same view.
pub fn clone_codes(v: &Vec<IRCode>) -> (r: Vec<IRCode>)
    ensures
        codes_view(r@) == codes_view(v@),
    decreases v,
{
    let n = v.len();
    let mut r: Vec<IRCode> = Vec::new();
    let mut i: usize = 0;
    while i < n
        invariant
            n == v@.len(),
            i <= n,
            r@.len() == i,
            forall|j: int| 0 <= j < i ==> code_view(#[trigger] r@[j]) == code_view(v@[j]),
        decreases n - i,
    {
        proof {
            assert(decreases_to!(v => v@[i as int]));
        }
        let c = v[i].view_clone();
        r.push(c);
        i = i + 1;
    }
    proof {
        lemma_codes_view(r@);
        lemma_codes_view(v@);
        assert(codes_view(r@) =~= codes_view(v@));
    }
    r
}

/// A named block: a flag whether it lives at IR top level, its run type,
/// and its body.
#[derive(Debug)]
pub struct Block {
    pub global: bool,
    pub run_type: BlockRunType,
    pub code: Vec<IRCode>,
}

pub struct BlockView {
    pub global: bool,
    pub run_type: BlockRunType,
    pub code: Seq<CodeView>,
}

impl View for Block {
    type V = BlockView;

    open spec fn view(&self) -> BlockView {
        BlockView { global: self.global, run_type: self.run_type, code: codes_view(self.code@) }
    }
}

impl ViewClone for Block {
    fn view_clone(&self) -> (r: Self)
        ensures
            r@ == self@,
    {
        Block { global: self.global, run_type: self.run_type, code: clone_codes(&self.code) }
    }
}

impl Block {
    /// True when the block's first run is cached for later calls.
    pub fn is_single_eval(&self) -> (r: bool)
        ensures
            r == (self@.run_type == BlockRunType::Once),
    {
        matches!(self.run_type, BlockRunType::Once)
    }

    pub fn is_global(&self) -> (r: bool)
        ensures
            r == self@.global,
    {
        self.global
    }
}

/// A source position attached to a block name.
#[derive(Debug)]
pub struct Position {
    pub file: String,
    pub line: u64,
    pub col: u64,
}

pub struct PositionView {
    pub file: Seq<char>,
    pub line: u64,
    pub col: u64,
}

impl View for Position {
    type V = PositionView;

    open spec fn view(&self) -> PositionView {
        PositionView { file: self.file@, line: self.line, col: self.col }
    }
}

impl ViewClone for Position {
    fn view_clone(&self) -> (r: Self)
        ensures
            r@ == self@,
    {
        Position { file: self.file.clone(), line: self.line, col: self.col }
    }
}

/// A linked program: blocks by name, free-form annotation text by name,
/// and an optional source position by name.
pub struct IR {
    pub blocks: NameMap<Block>,
    pub annotations: NameMap<String>,
    pub source_map: NameMap<Position>,
}

impl IR {
    /// All three maps have distinct keys.
    pub open spec fn wf(&self) -> bool {
        self.blocks.wf() && self.annotations.wf() && self.source_map.wf()
    }

    pub open spec fn blocks_map(&self) -> Map<Seq<char>, BlockView> {
        self.blocks.as_map()
    }

    pub fn new() -> (r: Self)
        ensures
            r.wf(),
            r.blocks@ =~= Seq::<(Seq<char>, BlockView)>::empty(),
            r.annotations@ =~= Seq::<(Seq<char>, Seq<char>)>::empty(),
            r.source_map@ =~= Seq::<(Seq<char>, PositionView)>::empty(),
            r.blocks_map() =~= Map::<Seq<char>, BlockView>::empty(),
            r.annotations.as_map() =~= Map::<Seq<char>, Seq<char>>::empty(),
            r.source_map.as_map() =~= Map::<Seq<char>, PositionView>::empty(),
    {
        IR { blocks: NameMap::new(), annotations: NameMap::new(), source_map: NameMap::new() }
    }

    /// Adds one block. With `output_err` set, a name already present is
    /// refused and nothing changes; otherwise the block replaces the old one.
    pub fn add_block(&mut self, name: String, block: Block, output_err: bool) -> (r: Result<
        (),
        IRError,
    >)
        requires
            old(self).wf(),
        ensures
            final(self).wf(),
            r is Err <==> output_err && old(self).blocks_map().contains_key(name@),
            r is Err ==> *final(self) == *old(self),
            r is Ok ==> final(self).blocks.as_map() =~= old(self).blocks_map().insert(
                name@,
                block@,
            ),
            r is Ok && !old(self).blocks_map().contains_key(name@) ==> final(self).blocks@
                =~= old(self).blocks@.push((name@, block@)),
            final(self).annotations == old(self).annotations,
            final(self).source_map == old(self).source_map,
    {
        if output_err && self.blocks.contains_key(&name) {
            return Err(IRError::BlockAlreadyExists);
        }
        self.blocks.insert(name, block);
        Ok(())
    }

    pub fn get_block(&self, id: &String) -> (r: Option<&Block>)
        requires
            self.wf(),
        ensures
            match r {
                Some(b) => self.blocks_map().contains_key(id@) && b@ == self.blocks_map()[id@],
                None => !self.blocks_map().contains_key(id@),
            },
    {
        self.blocks.get(id)
    }

    /// Merges another program into this one. Fails, changing nothing, when
    /// the two programs share a block name; annotations and source positions
    /// of the other program win over this one's.
    pub fn add(&mut self, another: &IR) -> (r: Result<(), IRError>)
        requires
            old(self).wf(),
            another.wf(),
        ensures
            final(self).wf(),
            r is Ok <==> old(self).blocks_map().dom().disjoint(another.blocks_map().dom()),
            r is Err ==> *final(self) == *old(self),
            r is Ok ==> final(self).blocks.as_map() =~= old(self).blocks_map().union_prefer_right(
                another.blocks_map(),
            ),
            r is Ok ==> final(self).annotations.as_map() =~= old(
                self,
            ).annotations.as_map().union_prefer_right(another.annotations.as_map()),
            r is Ok ==> final(self).source_map.as_map() =~= old(
                self,
            ).source_map.as_map().union_prefer_right(another.source_map.as_map()),
    {
        let n = another.blocks.len();
        let mut i: usize = 0;
        while i < n
            invariant
                *self == *old(self),
                old(self).wf(),
                another.wf(),
                n == another.blocks@.len(),
                i <= n,
                forall|j: int|
                    0 <= j < i ==> !old(self).blocks_map().contains_key(
                        #[trigger] another.blocks@[j].0,
                    ),
            decreases n - i,
        {
            if self.blocks.contains_key(another.blocks.key_at(i)) {
                proof {
                    lemma_assoc_map_contains(another.blocks@, another.blocks@[i as int].0);
                    assert(another.blocks_map().contains_key(another.blocks@[i as int].0));
                    assert(!old(self).blocks_map().dom().disjoint(another.blocks_map().dom()));
                }
                return Err(IRError::BlockAlreadyExists);
            }
            i = i + 1;
        }
        proof {
            assert forall|k: Seq<char>|
                old(self).blocks_map().dom().contains(k) implies !another.blocks_map().dom().contains(
                k,
            ) by {
                lemma_assoc_map_contains(another.blocks@, k);
                if another.blocks_map().contains_key(k) {
                    let j = choose|j: int|
                        0 <= j < another.blocks@.len() && another.blocks@[j].0 == k;
                    assert(!old(self).blocks_map().contains_key(another.blocks@[j].0));
                }
            }
        }
        let mut i: usize = 0;
        while i < n
            invariant
                old(self).wf(),
                another.wf(),
                self.wf(),
                n == another.blocks@.len(),
                i <= n,
                forall|j: int|
                    0 <= j < n ==> !old(self).blocks_map().contains_key(
                        #[trigger] another.blocks@[j].0,
                    ),
                self.blocks.as_map() =~= old(self).blocks_map().union_prefer_right(
                    assoc_map(another.blocks@.take(i as int)),
                ),
                self.annotations == old(self).annotations,
                self.source_map == old(self).source_map,
            decreases n - i,
        {
            let name = another.blocks.key_at(i).clone();
            let block = another.blocks.val_at(i).view_clone();
            proof {
                lemma_assoc_map_contains(another.blocks@.take(i as int), name@);
            }
            self.blocks.insert(name, block);
            proof {
                assert(another.blocks@.take(i as int + 1).drop_last() =~= another.blocks@.take(
                    i as int,
                ));
                assert(self.blocks.as_map() =~= old(self).blocks_map().union_prefer_right(
                    assoc_map(another.blocks@.take(i as int + 1)),
                ));
            }
            i = i + 1;
        }
        proof {
            assert(another.blocks@.take(n as int) =~= another.blocks@);
        }
        let ghost blocks_done = self.blocks;
        let an = another.annotations.len();
        let mut i: usize = 0;
        while i < an
            invariant
                old(self).wf(),
                another.wf(),
                self.wf(),
                an == another.annotations@.len(),
                i <= an,
                self.blocks == blocks_done,
                self.annotations.as_map() =~= old(self).annotations.as_map().union_prefer_right(
                    assoc_map(another.annotations@.take(i as int)),
                ),
                self.source_map == old(self).source_map,
            decreases an - i,
        {
            let name = another.annotations.key_at(i).clone();
            let text = another.annotations.val_at(i).clone();
            self.annotations.insert(name, text);
            proof {
                assert(another.annotations@.take(i as int + 1).drop_last()
                    =~= another.annotations@.take(i as int));
                assert(self.annotations.as_map() =~= old(
                    self,
                ).annotations.as_map().union_prefer_right(
                    assoc_map(another.annotations@.take(i as int + 1)),
                ));
            }
            i = i + 1;
        }
        proof {
            assert(another.annotations@.take(an as int) =~= another.annotations@);
        }
        let ghost annotations_done = self.annotations;
        let sn = another.source_map.len();
        let mut i: usize = 0;
        while i < sn
            invariant
                old(self).wf(),
                another.wf(),
                self.wf(),
                sn == another.source_map@.len(),
                i <= sn,
                self.blocks == blocks_done,
                self.annotations == annotations_done,
                self.source_map.as_map() =~= old(self).source_map.as_map().union_prefer_right(
                    assoc_map(another.source_map@.take(i as int)),
                ),
            decreases sn - i,
        {
            let name = another.source_map.key_at(i).clone();
            let pos = another.source_map.val_at(i).view_clone();
            self.source_map.insert(name, pos);
            proof {
                assert(another.source_map@.take(i as int + 1).drop_last()
                    =~= another.source_map@.take(i as int));
                assert(self.source_map.as_map() =~= old(
                    self,
                ).source_map.as_map().union_prefer_right(
                    assoc_map(another.source_map@.take(i as int + 1)),
                ));
            }
            i = i + 1;
        }
        proof {
            assert(another.source_map@.take(sn as int) =~= another.source_map@);
        }
        Ok(())
    }
}

impl Default for IR {
    fn default() -> (r: Self)
        ensures
            r.wf(),
            r.blocks@ =~= Seq::<(Seq<char>, BlockView)>::empty(),
            r.annotations@ =~= Seq::<(Seq<char>, Seq<char>)>::empty(),
            r.source_map@ =~= Seq::<(Seq<char>, PositionView)>::empty(),
    {
        IR::new()
    }
}


impl IR {
    /// True when some line of the block's annotation starts with the
    /// directive, compared byte for byte; a block without annotation has
    /// no directives.
    pub fn has_directive(&self, block: &String, directive: &String) -> (r: bool)
        requires
            self.wf(),
        ensures
            r == match self.annotations.as_map().contains_key(block@) {
                true => crate::text::has_directive_spec(
                    vstd::utf8::encode_utf8(self.annotations.as_map()[block@]),
                    vstd::utf8::encode_utf8(directive@),
                ),
                false => false,
            },
    {
        match self.annotations.get(block) {
            Some(text) => crate::text::text_has_directive(text, directive),
            None => false,
        }
    }
}

/// Law: a merge with the empty program leaves a program's maps as they
/// were, on either side; with `IR::add`'s contract this says that
/// merging with an empty program yields the original, and that merging
/// disjoint programs yields the union of their block sets.
pub proof fn lemma_merge_with_empty<T>(m: Map<Seq<char>, T>)
    ensures
        m.union_prefer_right(Map::<Seq<char>, T>::empty()) =~= m,
        Map::<Seq<char>, T>::empty().union_prefer_right(m) =~= m,
        m.dom().disjoint(Map::<Seq<char>, T>::empty().dom()),
{
}

} // verus!
