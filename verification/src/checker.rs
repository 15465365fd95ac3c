//! The static checker: every name a global block's ops mention must
//! resolve, and a local block may not shadow a name already visible.
use crate::blocks::{Blocks, VMBlock, VMBlockView};
use crate::ir::{codes_view, CodeView, IRCode};
use crate::value::{Value, ValueView};
use vstd::prelude::*;

verus! {

/// One finding: the offending name and the global block it stands in.
#[derive(Debug, Clone, PartialEq)]
pub enum BlocksCheckerError {
    UnknownBlock(String, String),
    CannotShadowBlocksInLocalScope(String, String),
}

/// The simulated walk of one op list: whether every mentioned name
/// resolved and no local shadowed, and the visible names afterwards.
pub open spec fn check_seq(env: Set<Seq<char>>, s: Seq<CodeView>) -> (bool, Set<Seq<char>>)
    decreases s, 0int,
{
    if s.len() == 0 {
        (true, env)
    } else {
        match s[0] {
            CodeView::LocalBlock(n, t, body) => {
                if env.contains(n) {
                    let rest = check_seq(env, s.drop_first());
                    (false, rest.1)
                } else {
                    let inner = check_seq(env.insert(n), body);
                    let rest = check_seq(inner.1, s.drop_first());
                    (inner.0 && rest.0, rest.1)
                }
            },
            CodeView::Call(n) => {
                let rest = check_seq(env, s.drop_first());
                (env.contains(n) && rest.0, rest.1)
            },
            CodeView::While(n) => {
                let rest = check_seq(env, s.drop_first());
                (env.contains(n) && rest.0, rest.1)
            },
            CodeView::If(n) => {
                let rest = check_seq(env, s.drop_first());
                (env.contains(n) && rest.0, rest.1)
            },
            CodeView::PutValue(v) => {
                let rest = check_seq(env, s.drop_first());
                match v {
                    ValueView::Block(n) => (env.contains(n) && rest.0, rest.1),
                    _ => rest,
                }
            },
            CodeView::Return => check_seq(env, s.drop_first()),
            CodeView::ReturnLocal => check_seq(env, s.drop_first()),
        }
    }
}

/// Every global program block of the view walks cleanly.
pub open spec fn checker_ok(bm: Map<Seq<char>, VMBlockView>) -> bool {
    forall|k: Seq<char>|
        bm.contains_key(k) && ((#[trigger] bm[k]) matches VMBlockView::IR(b) && b.global)
            ==> check_seq(bm.dom(), bm[k]->IR_0.code).0
}

/// The names a list of locals denotes.
pub open spec fn locals_set(s: Seq<String>) -> Set<Seq<char>> {
    Set::new(|k: Seq<char>| exists|j: int| 0 <= j < s.len() && s[j]@ == k)
}

/// The static checker over a resolution view.
pub struct BlocksChecker {}

impl Default for BlocksChecker {
    fn default() -> (r: Self)
        ensures
            true,
    {
        BlocksChecker {}
    }
}

impl BlocksChecker {
    pub fn new() -> (r: Self)
        ensures
            true,
    {
        BlocksChecker {}
    }

    /// A name resolves against the view or the simulated locals.
    fn resolves(blocks: &Blocks, locals: &Vec<String>, name: &String) -> (r: bool)
        requires
            blocks.wf(),
        ensures
            r == blocks.blocks_map().dom().union(locals_set(locals@)).contains(name@),
    {
        if blocks.blocks.contains_key(name) {
            return true;
        }
        let n = locals.len();
        let mut i: usize = 0;
        while i < n
            invariant
                n == locals@.len(),
                i <= n,
                forall|j: int| 0 <= j < i ==> (#[trigger] locals@[j])@ != name@,
            decreases n - i,
        {
            if locals[i].eq(name) {
                proof {
                    assert(locals_set(locals@).contains(name@));
                }
                return true;
            }
            i = i + 1;
        }
        proof {
            if locals_set(locals@).contains(name@) {
                let j = choose|j: int| 0 <= j < locals@.len() && locals@[j]@ == name@;
            }
        }
        false
    }

    /// Walks one op list, collecting findings and growing the simulated
    /// locals as the walk of the original view would.
    fn check_codes(
        &self,
        blocks: &Blocks,
        top: &String,
        locals: &mut Vec<String>,
        code: &Vec<IRCode>,
        errs: &mut Vec<BlocksCheckerError>,
    )
        requires
            blocks.wf(),
        ensures
            final(errs)@.len() >= old(errs)@.len(),
            forall|j: int| 0 <= j < old(errs)@.len() ==> final(errs)@[j] == old(errs)@[j],
            forall|j: int|
                old(errs)@.len() <= j < final(errs)@.len() ==> match #[trigger] final(errs)@[j] {
                    BlocksCheckerError::UnknownBlock(nm, t) => t@ == top@
                        && !blocks.blocks_map().contains_key(nm@),
                    BlocksCheckerError::CannotShadowBlocksInLocalScope(nm, t) => t@ == top@,
                },
            (final(errs)@.len() == old(errs)@.len()) == check_seq(
                blocks.blocks_map().dom().union(locals_set(old(locals)@)),
                codes_view(code@),
            ).0,
            blocks.blocks_map().dom().union(locals_set(final(locals)@)) == check_seq(
                blocks.blocks_map().dom().union(locals_set(old(locals)@)),
                codes_view(code@),
            ).1,
        decreases code, 0int,
    {
        let n = code.len();
        proof {
            crate::ir::lemma_codes_view(code@);
            assert(codes_view(code@).skip(0) =~= codes_view(code@));
        }
        let mut i: usize = 0;
        while i < n
            invariant
                blocks.wf(),
                n == code@.len(),
                i <= n,
                codes_view(code@).len() == n,
                forall|j: int|
                    0 <= j < n ==> codes_view(code@)[j] == crate::ir::code_view(code@[j]),
                errs@.len() >= old(errs)@.len(),
                forall|j: int| 0 <= j < old(errs)@.len() ==> errs@[j] == old(errs)@[j],
                forall|j: int|
                    old(errs)@.len() <= j < errs@.len() ==> match #[trigger] errs@[j] {
                        BlocksCheckerError::UnknownBlock(nm, t) => t@ == top@
                            && !blocks.blocks_map().contains_key(nm@),
                        BlocksCheckerError::CannotShadowBlocksInLocalScope(nm, t) => t@ == top@,
                    },
                check_seq(
                    blocks.blocks_map().dom().union(locals_set(old(locals)@)),
                    codes_view(code@),
                ).0 == (errs@.len() == old(errs)@.len() && check_seq(
                    blocks.blocks_map().dom().union(locals_set(locals@)),
                    codes_view(code@).skip(i as int),
                ).0),
                check_seq(
                    blocks.blocks_map().dom().union(locals_set(old(locals)@)),
                    codes_view(code@),
                ).1 == check_seq(
                    blocks.blocks_map().dom().union(locals_set(locals@)),
                    codes_view(code@).skip(i as int),
                ).1,
            decreases n - i,
        {
            let ghost env_now = blocks.blocks_map().dom().union(locals_set(locals@));
            let ghost tail = codes_view(code@).skip(i as int);
            proof {
                assert(tail[0] == codes_view(code@)[i as int]);
                assert(tail.drop_first() =~= codes_view(code@).skip(i as int + 1));
            }
            match &code[i] {
                IRCode::LocalBlock(name, _t, body) => {
                    if Self::resolves(blocks, locals, name) {
                        errs.push(
                            BlocksCheckerError::CannotShadowBlocksInLocalScope(
                                name.clone(),
                                top.clone(),
                            ),
                        );
                    } else {
                        let ghost prev_locals = locals@;
                        locals.push(name.clone());
                        proof {
                            let lv = locals@;
                            assert(lv.drop_last() =~= prev_locals);
                            assert forall|k: Seq<char>|
                                locals_set(lv).contains(k) implies locals_set(
                                lv.drop_last(),
                            ).insert(name@).contains(k) by {
                                let j = choose|j: int| 0 <= j < lv.len() && lv[j]@ == k;
                                if j < lv.len() - 1 {
                                    assert(lv.drop_last()[j]@ == k);
                                    assert(locals_set(lv.drop_last()).contains(k));
                                }
                            }
                            assert forall|k: Seq<char>|
                                locals_set(lv.drop_last()).insert(name@).contains(
                                    k,
                                ) implies locals_set(lv).contains(k) by {
                                if k == name@ {
                                    assert(lv[lv.len() - 1]@ == k);
                                } else {
                                    let j = choose|j: int|
                                        0 <= j < lv.drop_last().len() && lv.drop_last()[j]@ == k;
                                    assert(lv[j]@ == k);
                                }
                            }
                            assert(locals_set(lv) =~= locals_set(lv.drop_last()).insert(name@));
                            assert(blocks.blocks_map().dom().union(locals_set(lv))
                                =~= env_now.insert(name@));
                        }
                        proof {
                            assert(decreases_to!(code => code@[i as int]));
                        }
                        self.check_codes(blocks, top, locals, body, errs);
                    }
                },
                IRCode::Call(name) => {
                    if !Self::resolves(blocks, locals, name) {
                        errs.push(BlocksCheckerError::UnknownBlock(name.clone(), top.clone()));
                    }
                },
                IRCode::While(name) => {
                    if !Self::resolves(blocks, locals, name) {
                        errs.push(BlocksCheckerError::UnknownBlock(name.clone(), top.clone()));
                    }
                },
                IRCode::If(name) => {
                    if !Self::resolves(blocks, locals, name) {
                        errs.push(BlocksCheckerError::UnknownBlock(name.clone(), top.clone()));
                    }
                },
                IRCode::PutValue(v) => {
                    match v {
                        Value::Block(name) => {
                            if !Self::resolves(blocks, locals, name) {
                                errs.push(
                                    BlocksCheckerError::UnknownBlock(name.clone(), top.clone()),
                                );
                            }
                        },
                        _ => {},
                    }
                },
                IRCode::Return => {},
                IRCode::ReturnLocal => {},
            }
            i = i + 1;
        }
        proof {
            assert(codes_view(code@).skip(n as int) =~= Seq::<CodeView>::empty());
        }
    }

    /// Walks every global program block of the view, collecting every
    /// finding. No findings come back exactly when every mentioned name
    /// resolves and no local block shadows a visible name.
    pub fn check(&self, blocks: &Blocks) -> (errs: Vec<BlocksCheckerError>)
        requires
            blocks.wf(),
        ensures
            errs@.len() == 0 <==> checker_ok(blocks.blocks_map()),
            forall|j: int|
                0 <= j < errs@.len() ==> ((#[trigger] errs@[j]) matches
                BlocksCheckerError::UnknownBlock(nm, t) ==> !blocks.blocks_map().contains_key(
                    nm@,
                ) && blocks.blocks_map().contains_key(t@)),
            forall|j: int|
                0 <= j < errs@.len() ==> ((#[trigger] errs@[j]) matches
                BlocksCheckerError::CannotShadowBlocksInLocalScope(nm, t)
                    ==> blocks.blocks_map().contains_key(t@)),
    {
        let mut errs: Vec<BlocksCheckerError> = Vec::new();
        let n = blocks.blocks.len();
        let mut i: usize = 0;
        while i < n
            invariant
                blocks.wf(),
                n == blocks.blocks@.len(),
                i <= n,
                errs@.len() == 0 <==> forall|j: int|
                    0 <= j < i && ((#[trigger] blocks.blocks@[j].1) matches VMBlockView::IR(b)
                        && b.global) ==> check_seq(
                        blocks.blocks_map().dom(),
                        blocks.blocks@[j].1->IR_0.code,
                    ).0,
                forall|j: int|
                    0 <= j < errs@.len() ==> match #[trigger] errs@[j] {
                        BlocksCheckerError::UnknownBlock(nm, t) => !blocks.blocks_map().contains_key(
                            nm@,
                        ) && blocks.blocks_map().contains_key(t@),
                        BlocksCheckerError::CannotShadowBlocksInLocalScope(nm, t) => blocks.blocks_map().contains_key(
                            t@,
                        ),
                    },
            decreases n - i,
        {
            match blocks.blocks.val_at(i) {
                VMBlock::IR(blk) => {
                    if blk.is_global() {
                        let name = blocks.blocks.key_at(i).clone();
                        let mut locals: Vec<String> = Vec::new();
                        proof {
                            crate::names::lemma_assoc_map_index(blocks.blocks@, i as int);
                            assert(locals_set(locals@) =~= Set::<Seq<char>>::empty());
                            assert(blocks.blocks_map().dom().union(locals_set(locals@))
                                =~= blocks.blocks_map().dom());
                        }
                        self.check_codes(blocks, &name, &mut locals, &blk.code, &mut errs);
                    }
                },
                VMBlock::NativeHandler(_) => {},
            }
            i = i + 1;
        }
        proof {
            if errs@.len() == 0 {
                assert forall|k: Seq<char>|
                    blocks.blocks_map().contains_key(k) && ((#[trigger] blocks.blocks_map()[k])
                        matches VMBlockView::IR(b) && b.global) implies check_seq(
                    blocks.blocks_map().dom(),
                    blocks.blocks_map()[k]->IR_0.code,
                ).0 by {
                    crate::names::lemma_assoc_map_contains(blocks.blocks@, k);
                    let j = choose|j: int|
                        0 <= j < blocks.blocks@.len() && blocks.blocks@[j].0 == k;
                    crate::names::lemma_assoc_map_index(blocks.blocks@, j);
                }
            } else {
                if checker_ok(blocks.blocks_map()) {
                    let j = choose|j: int|
                        0 <= j < blocks.blocks@.len() && ((#[trigger] blocks.blocks@[j].1)
                            matches VMBlockView::IR(b) && b.global) && !check_seq(
                            blocks.blocks_map().dom(),
                            blocks.blocks@[j].1->IR_0.code,
                        ).0;
                    crate::names::lemma_assoc_map_index(blocks.blocks@, j);
                    assert(blocks.blocks_map()[blocks.blocks@[j].0] == blocks.blocks@[j].1);
                }
            }
        }
        errs
    }
}

} // verus!
