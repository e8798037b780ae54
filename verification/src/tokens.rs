//! Token bookkeeping of a running process.
//!
//! Tokens are element indices waiting to be run. Every fork opens a token
//! group on a stack; each token of the group is consumed when it reaches a
//! joining gateway or an end event. When all tokens of the top group are
//! consumed, the group closes and the gateway they joined (if any) fires.
use vstd::prelude::*;
use crate::bpmn::{Bpmn, GatewayType, spec_gateway_text};
use crate::diagram::ProcessData;
use crate::error::{DiagramError, RuntimeError};
use crate::text::{owned, join2};

verus! {

/// One token group: how many tokens it was made with, the gateways its
/// tokens joined (in order of arrival) and how many tokens are consumed.
pub struct TokenData {
    pub created: usize,
    pub joined: Vec<usize>,
    pub consumed: usize,
}

impl TokenData {
    /// A group of `created` tokens, none consumed yet.
    pub fn new(created: usize) -> (r: TokenData)
        ensures
            r.created == created,
            r.joined@.len() == 0,
            r.consumed == 0,
    {
        TokenData { created, joined: Vec::new(), consumed: 0 }
    }

    /// A token of the group is consumed, at the given gateway if it joined one.
    pub fn consume(&mut self, gateway: Option<usize>)
        ensures
            final(self).created == old(self).created,
            final(self).joined@ == match gateway {
                Some(g) => old(self).joined@.push(g),
                None => old(self).joined@,
            },
            final(self).consumed == if old(self).consumed < usize::MAX { old(self).consumed + 1 } else { old(self).consumed as int },
    {
        if let Some(g) = gateway {
            self.joined.push(g);
        }
        if self.consumed < usize::MAX {
            self.consumed = self.consumed + 1;
        }
    }

    /// All tokens of the group are consumed.
    pub fn consumed(&self) -> (r: bool)
        ensures
            r == (self.created <= self.consumed),
    {
        self.created <= self.consumed
    }
}

/// All values of the sequence are the same.
pub open spec fn spec_all_same(s: Seq<usize>) -> bool {
    forall|i: int, j: int| 0 <= i < s.len() && 0 <= j < s.len() ==> s[i] == s[j]
}

/// Whether the first joined gateway is a parallel gateway that fewer tokens
/// reached than it has inputs.
pub open spec fn spec_too_few_tokens(pd: ProcessData, joined: Seq<usize>) -> bool {
    &&& joined.len() > 0
    &&& joined[0] < pd.data@.len()
    &&& pd.data@[joined[0] as int] matches Bpmn::Gateway(g)
    &&& g.gateway_type == GatewayType::Parallel
    &&& joined.len() < g.inputs
}

/// Whether all values are the same.
pub fn all_same(v: &Vec<usize>) -> (r: bool)
    ensures
        r == spec_all_same(v@),
{
    if v.len() == 0 {
        return true;
    }
    let first = v[0];
    let mut i: usize = 1;
    while i < v.len()
        invariant
            1 <= i <= v@.len(),
            first == v@[0],
            forall|k: int| 0 <= k < i ==> v@[k] == first,
        decreases v@.len() - i,
    {
        if v[i] != first {
            return false;
        }
        i = i + 1;
    }
    true
}

/// The token state of a running process as values: the token lists ready
/// to run, the forks of this round, and for each open token group the number
/// of tokens it was made with, the gateways its tokens joined and the number
/// of tokens consumed.
pub struct TokenState {
    pub ready: Seq<Seq<usize>>,
    pub forks: Seq<Seq<usize>>,
    pub groups: Seq<(nat, Seq<usize>, nat)>,
}

/// The lists of indices held by the vectors.
pub open spec fn spec_lists_of(v: Seq<Vec<usize>>) -> Seq<Seq<usize>> {
    Seq::new(v.len(), |i: int| v[i]@)
}

/// The groups held by the token data.
pub open spec fn spec_groups_of(v: Seq<TokenData>) -> Seq<(nat, Seq<usize>, nat)> {
    Seq::new(v.len(), |i: int| (v[i].created as nat, v[i].joined@, v[i].consumed as nat))
}

/// The state at the start of a run: one token at the start element.
pub open spec fn spec_fresh(start: usize) -> TokenState {
    TokenState { ready: seq![seq![start]], forks: Seq::empty(), groups: Seq::empty() }
}

/// The ready lists are taken to run.
pub open spec fn spec_take(t: TokenState) -> TokenState {
    TokenState { ready: Seq::empty(), ..t }
}

/// A token of the top group is consumed, at the gateway it joined if any.
pub open spec fn spec_consume(t: TokenState, join: Option<usize>) -> TokenState {
    if t.groups.len() == 0 {
        t
    } else {
        let top = t.groups.last();
        TokenState {
            groups: t.groups.update(t.groups.len() - 1, (
                top.0,
                match join { Some(g) => top.1.push(g), None => top.1 },
                if top.2 < usize::MAX { top.2 + 1 } else { top.2 },
            )),
            ..t
        }
    }
}

/// A fork of this round.
pub open spec fn spec_fork(t: TokenState, v: Seq<usize>) -> TokenState {
    TokenState { forks: t.forks.push(v), ..t }
}

/// Tokens ready at once.
pub open spec fn spec_now(t: TokenState, v: Seq<usize>) -> TokenState {
    TokenState { ready: t.ready.push(v), ..t }
}

/// Every fork of the round opens a group and becomes ready.
pub open spec fn spec_commit(t: TokenState) -> TokenState {
    TokenState {
        ready: t.ready + t.forks,
        forks: Seq::empty(),
        groups: t.groups + Seq::new(t.forks.len(), |i: int| (t.forks[i].len(), Seq::<usize>::empty(), 0nat)),
    }
}

/// The top group closes.
pub open spec fn spec_pop(t: TokenState) -> TokenState {
    TokenState { groups: t.groups.drop_last(), ..t }
}

/// The state of the tokens of a running process.
pub struct ExecuteHandler {
    /// Token lists to run in the next round.
    pub tokens_ready: Vec<Vec<usize>>,
    /// Forks of this round, not yet committed.
    pub uncommitted: Vec<Vec<usize>>,
    pub token_stack: Vec<TokenData>,
}

impl ExecuteHandler {
    /// The token state as values.
    pub open spec fn spec_state(&self) -> TokenState {
        TokenState {
            ready: spec_lists_of(self.tokens_ready@),
            forks: spec_lists_of(self.uncommitted@),
            groups: spec_groups_of(self.token_stack@),
        }
    }

    /// Every token is below `n`.
    pub open spec fn tokens_below(&self, n: nat) -> bool {
        &&& forall|i: int, j: int| 0 <= i < self.tokens_ready@.len() && 0 <= j < self.tokens_ready@[i]@.len()
            ==> #[trigger] self.tokens_ready@[i]@[j] < n
        &&& forall|i: int, j: int| 0 <= i < self.uncommitted@.len() && 0 <= j < self.uncommitted@[i]@.len()
            ==> #[trigger] self.uncommitted@[i]@[j] < n
    }

    /// The state at the start of a run: the given tokens are ready, no group is open.
    pub fn new(tokens: Vec<usize>) -> (r: ExecuteHandler)
        ensures
            r.tokens_ready@.len() == 1,
            r.tokens_ready@[0] == tokens,
            r.uncommitted@.len() == 0,
            r.token_stack@.len() == 0,
            r.spec_state() == (TokenState { ready: seq![tokens@], forks: Seq::empty(), groups: Seq::empty() }),
    {
        let mut tokens_ready: Vec<Vec<usize>> = Vec::new();
        tokens_ready.push(tokens);
        let r = ExecuteHandler { tokens_ready, uncommitted: Vec::new(), token_stack: Vec::new() };
        proof {
            assert(r.spec_state().ready =~= seq![tokens@]);
            assert(r.spec_state().forks =~= Seq::<Seq<usize>>::empty());
            assert(r.spec_state().groups =~= Seq::<(nat, Seq<usize>, nat)>::empty());
        }
        r
    }

    /// The tokens to run now; none are ready afterwards.
    pub fn active_tokens(&mut self) -> (r: Vec<Vec<usize>>)
        ensures
            r == old(self).tokens_ready,
            final(self).tokens_ready@.len() == 0,
            final(self).uncommitted == old(self).uncommitted,
            final(self).token_stack == old(self).token_stack,
            final(self).spec_state() == spec_take(old(self).spec_state()),
    {
        let mut taken: Vec<Vec<usize>> = Vec::new();
        std::mem::swap(&mut taken, &mut self.tokens_ready);
        proof { assert(self.spec_state().ready =~= Seq::<Seq<usize>>::empty()); }
        taken
    }

    /// Tokens ready at once, without a new token group: a joining gateway
    /// with one output continues with the tokens that joined it.
    pub fn immediate(&mut self, item: Vec<usize>)
        ensures
            final(self).tokens_ready@ == old(self).tokens_ready@.push(item),
            final(self).uncommitted == old(self).uncommitted,
            final(self).token_stack == old(self).token_stack,
            final(self).spec_state() == spec_now(old(self).spec_state(), item@),
    {
        let ghost v = item@;
        self.tokens_ready.push(item);
        proof { assert(self.spec_state().ready =~= old(self).spec_state().ready.push(v)); }
    }

    /// A fork of this round; it opens a token group when committed, even if
    /// it holds one token.
    pub fn pending_fork(&mut self, item: Vec<usize>)
        ensures
            final(self).uncommitted@ == old(self).uncommitted@.push(item),
            final(self).tokens_ready == old(self).tokens_ready,
            final(self).token_stack == old(self).token_stack,
            final(self).spec_state() == spec_fork(old(self).spec_state(), item@),
    {
        let ghost v = item@;
        self.uncommitted.push(item);
        proof { assert(self.spec_state().forks =~= old(self).spec_state().forks.push(v)); }
    }

    /// Every fork of this round opens a token group and becomes ready, in order.
    pub fn commit(&mut self)
        ensures
            final(self).uncommitted@.len() == 0,
            final(self).tokens_ready@ == old(self).tokens_ready@ + old(self).uncommitted@,
            final(self).token_stack@.len() == old(self).token_stack@.len() + old(self).uncommitted@.len(),
            forall|k: int| 0 <= k < old(self).token_stack@.len() ==>
                #[trigger] final(self).token_stack@[k] == old(self).token_stack@[k],
            forall|k: int| 0 <= k < old(self).uncommitted@.len() ==> {
                let t = #[trigger] final(self).token_stack@[old(self).token_stack@.len() + k];
                &&& t.created == old(self).uncommitted@[k]@.len()
                &&& t.joined@.len() == 0
                &&& t.consumed == 0
            },
            final(self).spec_state() == spec_commit(old(self).spec_state()),
    {
        let mut items: Vec<Vec<usize>> = Vec::new();
        std::mem::swap(&mut items, &mut self.uncommitted);
        let ghost old_items = items@;
        let ghost old_ready = self.tokens_ready@;
        let ghost old_stack = self.token_stack@;
        let n = items.len();
        let mut i: usize = 0;
        while i < n
            invariant
                i <= n == items@.len() == old_items.len(),
                old_items == old(self).uncommitted@,
                forall|k: int| i <= k < n ==> #[trigger] items@[k] == old_items[k],
                self.uncommitted@.len() == 0,
                self.tokens_ready@ == old_ready + old_items.subrange(0, i as int),
                self.token_stack@.len() == old_stack.len() + i,
                forall|k: int| 0 <= k < old_stack.len() ==> #[trigger] self.token_stack@[k] == old_stack[k],
                forall|k: int| 0 <= k < i ==> {
                    let t = #[trigger] self.token_stack@[old_stack.len() + k];
                    &&& t.created == old_items[k]@.len()
                    &&& t.joined@.len() == 0
                    &&& t.consumed == 0
                },
            decreases n - i,
        {
            let mut item: Vec<usize> = Vec::new();
            std::mem::swap(&mut item, &mut items[i]);
            assert(item == old_items[i as int]);
            self.token_stack.push(TokenData::new(item.len()));
            self.tokens_ready.push(item);
            proof {
                assert(old_items.subrange(0, i + 1) =~= old_items.subrange(0, i as int).push(old_items[i as int]));
            }
            i = i + 1;
        }
        proof {
            assert(old_items.subrange(0, n as int) =~= old_items);
            let o = old(self).spec_state();
            assert(self.spec_state().ready =~= o.ready + o.forks);
            assert(self.spec_state().forks =~= Seq::<Seq<usize>>::empty());
            let want = o.groups + Seq::new(o.forks.len(), |i: int| (o.forks[i].len(), Seq::<usize>::empty(), 0nat));
            assert forall|k: int| 0 <= k < want.len() implies #[trigger] self.spec_state().groups[k] == want[k] by {
                if k < old_stack.len() {
                    assert(self.token_stack@[k] == old_stack[k]);
                } else {
                    let t = self.token_stack@[old_stack.len() + (k - old_stack.len())];
                    assert(t.joined@ =~= Seq::<usize>::empty());
                }
            }
            assert(self.spec_state().groups =~= want);
        }
    }

    /// A token of the top group is consumed, at the given gateway if it
    /// joined one. Without a group nothing changes.
    pub fn consume_token(&mut self, join: Option<usize>)
        ensures
            final(self).tokens_ready == old(self).tokens_ready,
            final(self).uncommitted == old(self).uncommitted,
            final(self).token_stack@.len() == old(self).token_stack@.len(),
            old(self).token_stack@.len() == 0 ==> final(self).token_stack == old(self).token_stack,
            old(self).token_stack@.len() > 0 ==> {
                &&& final(self).token_stack@.drop_last() == old(self).token_stack@.drop_last()
                &&& final(self).token_stack@.last().created == old(self).token_stack@.last().created
                &&& final(self).token_stack@.last().joined@ == match join {
                    Some(g) => old(self).token_stack@.last().joined@.push(g),
                    None => old(self).token_stack@.last().joined@,
                }
                &&& final(self).token_stack@.last().consumed == if old(self).token_stack@.last().consumed < usize::MAX {
                    old(self).token_stack@.last().consumed + 1
                } else {
                    old(self).token_stack@.last().consumed as int
                }
            },
            final(self).spec_state() == spec_consume(old(self).spec_state(), join),
    {
        let n = self.token_stack.len();
        if n > 0 {
            let ghost old_stack = self.token_stack@;
            let mut top = TokenData::new(0);
            std::mem::swap(&mut top, &mut self.token_stack[n - 1]);
            top.consume(join);
            self.token_stack.set(n - 1, top);
            proof {
                assert(self.token_stack@.drop_last() =~= old_stack.drop_last());
                assert(self.spec_state().groups =~= spec_consume(old(self).spec_state(), join).groups);
            }
        }
    }

    /// When all tokens of the top group are consumed, the group closes and the
    /// first gateway its tokens joined is returned. A parallel gateway that
    /// fewer tokens reached than it has inputs stops the run, and so do tokens
    /// that joined different gateways (an unbalanced diagram).
    pub fn tokens_consumed(&mut self, pd: &ProcessData) -> (r: Result<Option<usize>, RuntimeError>)
        ensures
            final(self).tokens_ready == old(self).tokens_ready,
            final(self).uncommitted == old(self).uncommitted,
            !(old(self).token_stack@.len() > 0 && old(self).token_stack@.last().created <= old(self).token_stack@.last().consumed)
                ==> r == Ok::<Option<usize>, RuntimeError>(None) && final(self).token_stack == old(self).token_stack,
            old(self).token_stack@.len() > 0 && old(self).token_stack@.last().created <= old(self).token_stack@.last().consumed ==> {
                let joined = old(self).token_stack@.last().joined@;
                &&& final(self).token_stack@ == old(self).token_stack@.drop_last()
                &&& final(self).spec_state() == spec_pop(old(self).spec_state())
                &&& spec_too_few_tokens(*pd, joined) ==> (r matches Err(RuntimeError::Diagram(DiagramError::BpmnRequirement(m)))
                    && m@ == "Execution stopped. Not enough tokens at "@
                        + spec_gateway_text(pd.data@[joined[0] as int]->Gateway_0))
                &&& !spec_too_few_tokens(*pd, joined) && !spec_all_same(joined) ==>
                    (r matches Err(RuntimeError::Diagram(DiagramError::NotSupported(m))) && m@ == "Unbalanced diagram"@)
                &&& !spec_too_few_tokens(*pd, joined) && spec_all_same(joined) ==>
                    r == Ok::<Option<usize>, RuntimeError>(if joined.len() > 0 { Some(joined[0]) } else { None })
            },
    {
        let n = self.token_stack.len();
        if n == 0 {
            return Ok(None);
        }
        if !self.token_stack[n - 1].consumed() {
            return Ok(None);
        }
        let top = match self.token_stack.pop() {
            Some(t) => t,
            None => { return Ok(None); },
        };
        proof { assert(self.spec_state().groups =~= old(self).spec_state().groups.drop_last()); }
        let joined = top.joined;
        if joined.len() > 0 {
            let g = joined[0];
            if g < pd.data.len() {
                if let Bpmn::Gateway(gw) = &pd.data[g] {
                    if gw.gateway_type == GatewayType::Parallel && (joined.len() as u64) < (gw.inputs as u64) {
                        return Err(RuntimeError::Diagram(DiagramError::BpmnRequirement(
                            join2("Execution stopped. Not enough tokens at ", gw.text().as_str()))));
                    }
                }
            }
            if !all_same(&joined) {
                return Err(RuntimeError::Diagram(DiagramError::NotSupported(owned("Unbalanced diagram"))));
            }
            Ok(Some(g))
        } else {
            Ok(None)
        }
    }
}

} // verus!
