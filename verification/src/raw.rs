//! The token group type and the token distributor.

use vstd::prelude::*;

verus! {

/// The arity kind a parameter descriptor declares: how many tokens the
/// parameter expects and whether they may be absent.
#[derive(Clone, Copy, Debug, PartialEq, Eq, Structural)]
pub enum ArgumentType {
    /// Expects exactly one token.
    RequiredSingle,
    /// Expects zero or one token.
    OptionalSingle,
    /// Expects one or more tokens; drains every remaining token.
    RequiredMultiple,
    /// Expects zero or more tokens; drains every remaining token.
    OptionalMultiple,
}

/// A parameter descriptor: the part of a declared parameter that token
/// distribution reads, namely its arity kind.
#[derive(Clone, Copy, Debug)]
pub struct Argument {
    /// The declared arity kind.
    pub ty: ArgumentType,
}

/// An ordered group of string tokens assigned to exactly one parameter
/// slot.  Created by the distributor, consumed by one conversion call.
#[derive(Debug, Clone)]
pub struct Raw(Vec<String>);

impl View for Raw {
    type V = Seq<String>;

    closed spec fn view(&self) -> Seq<String> {
        self.0@
    }
}

impl Raw {
    /// Wraps an existing token vector as a group.
    pub fn new(v: Vec<String>) -> (raw: Raw)
        ensures
            raw@ == v@,
    {
        Raw(v)
    }

    /// Appends a token at the end of the group.
    pub fn push(&mut self, ele: String)
        ensures
            final(self)@ == old(self)@.push(ele),
    {
        self.0.push(ele);
    }

    /// Removes and returns the token at `idx`, shifting later tokens left.
    pub fn remove(&mut self, idx: usize) -> (tok: String)
        requires
            idx < old(self)@.len(),
        ensures
            tok == old(self)@[idx as int],
            final(self)@ == old(self)@.remove(idx as int),
    {
        self.0.remove(idx)
    }

    /// True when the group holds no token.
    pub fn is_empty(&self) -> (empty: bool)
        ensures
            empty == (self@.len() == 0),
    {
        self.0.len() == 0
    }

    /// The number of tokens in the group.
    pub fn len(&self) -> (n: usize)
        ensures
            n == self@.len(),
    {
        self.0.len()
    }

    /// The token at position `i`.
    pub fn get(&self, i: usize) -> (tok: &String)
        requires
            i < self@.len(),
        ensures
            *tok == self@[i as int],
    {
        &self.0[i]
    }
}

/// How many tokens the arity kind `ty` takes from a cursor with
/// `remaining` tokens left: a Single kind takes at most one, a Multiple
/// kind drains them all.
pub open spec fn consumed_count(ty: ArgumentType, remaining: nat) -> nat {
    match ty {
        ArgumentType::RequiredSingle => if remaining == 0 { 0nat } else { 1nat },
        ArgumentType::OptionalSingle => if remaining == 0 { 0nat } else { 1nat },
        ArgumentType::RequiredMultiple => remaining,
        ArgumentType::OptionalMultiple => remaining,
    }
}

/// The arity kinds a descriptor list declares, in order.
pub open spec fn kinds_of(args: Seq<Argument>) -> Seq<ArgumentType> {
    args.map_values(|a: Argument| a.ty)
}

/// The groups token distribution produces: one group per arity kind, in
/// order, each taking its consumed count from what the earlier kinds
/// left over.
pub open spec fn divide_spec(tokens: Seq<String>, kinds: Seq<ArgumentType>) -> Seq<Seq<String>>
    decreases kinds.len(),
{
    if kinds.len() == 0 {
        Seq::empty()
    } else {
        let n = consumed_count(kinds[0], tokens.len()) as int;
        seq![tokens.take(n)] + divide_spec(tokens.skip(n), kinds.skip(1))
    }
}

/// The token sequences held by a sequence of groups.
pub open spec fn groups_of(raws: Seq<Raw>) -> Seq<Seq<String>> {
    raws.map_values(|r: Raw| r@)
}

/// How many tokens distribution consumes in total.
pub open spec fn consumed_total(tokens: Seq<String>, kinds: Seq<ArgumentType>) -> nat
    decreases kinds.len(),
{
    if kinds.len() == 0 {
        0nat
    } else {
        let n = consumed_count(kinds[0], tokens.len());
        n + consumed_total(tokens.skip(n as int), kinds.skip(1))
    }
}

/// The arity kind of an optional descriptor, when one is supplied.
pub open spec fn opt_kind(arg: Option<Argument>) -> Option<ArgumentType> {
    match arg {
        None => None,
        Some(a) => Some(a.ty),
    }
}

/// The single group option distribution produces: empty without a
/// descriptor, and otherwise the descriptor's consumed count taken from
/// the front of the tokens.
pub open spec fn divide_opt_spec(tokens: Seq<String>, kind: Option<ArgumentType>) -> Seq<String> {
    match kind {
        None => Seq::empty(),
        Some(ty) => tokens.take(consumed_count(ty, tokens.len()) as int),
    }
}

impl Raw {
    /// Distributes the raw tokens of one invocation over a command's
    /// descriptor list: one group per descriptor, in order, over a single
    /// forward-only cursor.  A Single descriptor pulls at most one token,
    /// a Multiple descriptor drains every remaining token; an exhausted
    /// cursor yields an empty group, never an error.
    pub fn divide_cmd(tokens: &Vec<String>, args: &Vec<Argument>) -> (raws: Vec<Raw>)
        ensures
            raws@.len() == args@.len(),
            groups_of(raws@) == divide_spec(tokens@, kinds_of(args@)),
    {
        let ghost kinds = kinds_of(args@);
        let mut raws: Vec<Raw> = Vec::new();
        let mut cursor: usize = 0;
        let mut j: usize = 0;
        let n_args = args.len();
        proof {
            assert(tokens@.skip(0) =~= tokens@);
            assert(kinds.skip(0) =~= kinds);
            assert(groups_of(raws@) =~= Seq::<Seq<String>>::empty());
            assert(groups_of(raws@) + divide_spec(tokens@, kinds) =~= divide_spec(tokens@, kinds));
        }
        while j < n_args
            invariant
                j <= n_args,
                n_args == args@.len(),
                cursor <= tokens@.len(),
                kinds == kinds_of(args@),
                raws@.len() == j,
                groups_of(raws@) + divide_spec(tokens@.skip(cursor as int), kinds.skip(j as int))
                    == divide_spec(tokens@, kinds),
            decreases n_args - j,
        {
            let ghost start = cursor as int;
            let ghost nc = consumed_count(kinds[j as int], (tokens@.len() - cursor) as nat) as int;
            let mut raw = Raw::new(Vec::new());
            match args[j].ty {
                ArgumentType::RequiredSingle => {
                    if cursor < tokens.len() {
                        raw.push(tokens[cursor].clone());
                        cursor = cursor + 1;
                    }
                    proof {
                        if start < tokens@.len() {
                            assert(raw@ =~= tokens@.skip(start).take(1));
                        } else {
                            assert(raw@ =~= tokens@.skip(start).take(0));
                        }
                    }
                },
                ArgumentType::OptionalSingle => {
                    if cursor < tokens.len() {
                        raw.push(tokens[cursor].clone());
                        cursor = cursor + 1;
                    }
                    proof {
                        if start < tokens@.len() {
                            assert(raw@ =~= tokens@.skip(start).take(1));
                        } else {
                            assert(raw@ =~= tokens@.skip(start).take(0));
                        }
                    }
                },
                ArgumentType::RequiredMultiple => {
                    while cursor < tokens.len()
                        invariant
                            0 <= start <= cursor <= tokens@.len(),
                            raw@ == tokens@.subrange(start, cursor as int),
                        decreases tokens@.len() - cursor,
                    {
                        raw.push(tokens[cursor].clone());
                        cursor = cursor + 1;
                        proof {
                            assert(tokens@.subrange(start, cursor as int) =~= tokens@.subrange(
                                start,
                                cursor - 1,
                            ).push(tokens@[cursor - 1]));
                        }
                    }
                    proof {
                        assert(raw@ =~= tokens@.skip(start).take(tokens@.len() - start));
                    }
                },
                ArgumentType::OptionalMultiple => {
                    while cursor < tokens.len()
                        invariant
                            0 <= start <= cursor <= tokens@.len(),
                            raw@ == tokens@.subrange(start, cursor as int),
                        decreases tokens@.len() - cursor,
                    {
                        raw.push(tokens[cursor].clone());
                        cursor = cursor + 1;
                        proof {
                            assert(tokens@.subrange(start, cursor as int) =~= tokens@.subrange(
                                start,
                                cursor - 1,
                            ).push(tokens@[cursor - 1]));
                        }
                    }
                    proof {
                        assert(raw@ =~= tokens@.skip(start).take(tokens@.len() - start));
                    }
                },
            }
            proof {
                assert(kinds[j as int] == args@[j as int].ty);
                lemma_divide_cmd_step(tokens@, kinds, raws@, raw, start, cursor as int, j as int);
            }
            raws.push(raw);
            j = j + 1;
        }
        proof {
            assert(kinds.skip(j as int) =~= Seq::<ArgumentType>::empty());
            assert(groups_of(raws@) + divide_spec(tokens@.skip(cursor as int), kinds.skip(j as int))
                =~= groups_of(raws@));
        }
        raws
    }

    /// Distributes a flag's isolated remaining tokens over its optional
    /// descriptor: the same per-arity rule as for a command, applied to a
    /// single descriptor over a fresh cursor.  Without a descriptor the
    /// group is empty whatever the tokens are.
    pub fn divide_opt(tokens: &Vec<String>, arg: &Option<Argument>) -> (raw: Raw)
        ensures
            raw@ == divide_opt_spec(tokens@, opt_kind(*arg)),
    {
        if let Some(arg) = arg {
            match arg.ty {
                ArgumentType::RequiredSingle => {
                    let mut raw = Raw::new(Vec::new());
                    if tokens.len() > 0 {
                        raw.push(tokens[0].clone());
                    }
                    proof {
                        lemma_take_front(tokens@, raw@);
                    }
                    raw
                },
                ArgumentType::OptionalSingle => {
                    let mut raw = Raw::new(Vec::new());
                    if tokens.len() > 0 {
                        raw.push(tokens[0].clone());
                    }
                    proof {
                        lemma_take_front(tokens@, raw@);
                    }
                    raw
                },
                ArgumentType::RequiredMultiple => {
                    let mut raw = Raw::new(Vec::new());
                    let mut cursor: usize = 0;
                    while cursor < tokens.len()
                        invariant
                            cursor <= tokens@.len(),
                            raw@ == tokens@.subrange(0, cursor as int),
                        decreases tokens@.len() - cursor,
                    {
                        raw.push(tokens[cursor].clone());
                        cursor = cursor + 1;
                        proof {
                            assert(tokens@.subrange(0, cursor as int) =~= tokens@.subrange(
                                0,
                                cursor - 1,
                            ).push(tokens@[cursor - 1]));
                        }
                    }
                    proof {
                        assert(raw@ =~= tokens@.take(tokens@.len() as int));
                    }
                    raw
                },
                ArgumentType::OptionalMultiple => {
                    let mut raw = Raw::new(Vec::new());
                    let mut cursor: usize = 0;
                    while cursor < tokens.len()
                        invariant
                            cursor <= tokens@.len(),
                            raw@ == tokens@.subrange(0, cursor as int),
                        decreases tokens@.len() - cursor,
                    {
                        raw.push(tokens[cursor].clone());
                        cursor = cursor + 1;
                        proof {
                            assert(tokens@.subrange(0, cursor as int) =~= tokens@.subrange(
                                0,
                                cursor - 1,
                            ).push(tokens@[cursor - 1]));
                        }
                    }
                    proof {
                        assert(raw@ =~= tokens@.take(tokens@.len() as int));
                    }
                    raw
                },
            }
        } else {
            Raw::new(Vec::new())
        }
    }
}

/// True when the arity kind drains every remaining token.
pub open spec fn is_multiple(ty: ArgumentType) -> bool {
    ty == ArgumentType::RequiredMultiple || ty == ArgumentType::OptionalMultiple
}

/// Distribution yields exactly one token group per descriptor, in input
/// order: the group at position `i` belongs to the descriptor at
/// position `i`.
pub proof fn lemma_one_group_per_descriptor(tokens: Seq<String>, kinds: Seq<ArgumentType>)
    ensures
        divide_spec(tokens, kinds).len() == kinds.len(),
    decreases kinds.len(),
{
    if kinds.len() > 0 {
        let n = consumed_count(kinds[0], tokens.len()) as int;
        lemma_one_group_per_descriptor(tokens.skip(n), kinds.skip(1));
    }
}

/// Distribution never consumes more tokens than were supplied.
pub proof fn lemma_consumed_total_le(tokens: Seq<String>, kinds: Seq<ArgumentType>)
    ensures
        consumed_total(tokens, kinds) <= tokens.len(),
    decreases kinds.len(),
{
    if kinds.len() > 0 {
        let n = consumed_count(kinds[0], tokens.len()) as int;
        lemma_consumed_total_le(tokens.skip(n), kinds.skip(1));
    }
}

/// No token is lost, duplicated or misattributed: the groups,
/// concatenated in order, are exactly the front of the token sequence up
/// to the point where total consumption stopped.  A token consumed by an
/// earlier descriptor therefore never reappears in a later group.
pub proof fn lemma_groups_concat_to_consumed(tokens: Seq<String>, kinds: Seq<ArgumentType>)
    ensures
        divide_spec(tokens, kinds).flatten() == tokens.take(consumed_total(tokens, kinds) as int),
    decreases kinds.len(),
{
    if kinds.len() == 0 {
        assert(divide_spec(tokens, kinds).flatten() =~= tokens.take(0));
    } else {
        let n = consumed_count(kinds[0], tokens.len()) as int;
        let rest = divide_spec(tokens.skip(n), kinds.skip(1));
        let whole = seq![tokens.take(n)] + rest;
        assert(divide_spec(tokens, kinds) == whole);
        lemma_groups_concat_to_consumed(tokens.skip(n), kinds.skip(1));
        lemma_consumed_total_le(tokens.skip(n), kinds.skip(1));
        let m = consumed_total(tokens.skip(n), kinds.skip(1)) as int;
        assert(whole.first() == tokens.take(n));
        assert(whole.drop_first() =~= rest);
        assert(whole.flatten() == whole.first() + whole.drop_first().flatten());
        assert(tokens.take(n) + tokens.skip(n).take(m) =~= tokens.take(n + m));
    }
}

/// When no token is left, every group that distribution produces is
/// empty.
proof fn lemma_divide_empty_tokens(tokens: Seq<String>, kinds: Seq<ArgumentType>)
    requires
        tokens.len() == 0,
    ensures
        forall|i: int|
            0 <= i < kinds.len() ==> (#[trigger] divide_spec(tokens, kinds)[i]).len() == 0,
    decreases kinds.len(),
{
    if kinds.len() > 0 {
        let n = consumed_count(kinds[0], tokens.len()) as int;
        let rest = divide_spec(tokens.skip(n), kinds.skip(1));
        lemma_one_group_per_descriptor(tokens.skip(n), kinds.skip(1));
        lemma_divide_empty_tokens(tokens.skip(n), kinds.skip(1));
        assert(divide_spec(tokens, kinds)[0] =~= tokens.take(0));
        assert forall|i: int|
            1 <= i < kinds.len() implies (#[trigger] divide_spec(tokens, kinds)[i]).len()
            == 0 by {
            assert(divide_spec(tokens, kinds) == seq![tokens.take(n)] + rest);
            assert((seq![tokens.take(n)] + rest)[i] == rest[i - 1]);
        }
    }
}

/// A Multiple-arity descriptor consumes every token remaining at the
/// point it runs, and every descriptor after it receives an empty group.
pub proof fn lemma_multiple_drains(tokens: Seq<String>, kinds: Seq<ArgumentType>, i: int)
    requires
        0 <= i < kinds.len(),
        is_multiple(kinds[i]),
    ensures
        divide_spec(tokens, kinds)[i] == tokens.skip(
            consumed_total(tokens, kinds.take(i)) as int,
        ),
        forall|j: int|
            i < j < kinds.len() ==> (#[trigger] divide_spec(tokens, kinds)[j]).len() == 0,
    decreases i,
{
    let n = consumed_count(kinds[0], tokens.len()) as int;
    let rest = divide_spec(tokens.skip(n), kinds.skip(1));
    lemma_one_group_per_descriptor(tokens.skip(n), kinds.skip(1));
    if i == 0 {
        assert(divide_spec(tokens, kinds)[0] == tokens.take(n));
        assert(kinds.take(0).len() == 0);
        assert(tokens.take(n) =~= tokens.skip(0));
        assert(tokens.skip(n).len() == 0);
        lemma_divide_empty_tokens(tokens.skip(n), kinds.skip(1));
        assert forall|j: int|
            0 < j < kinds.len() implies (#[trigger] divide_spec(tokens, kinds)[j]).len()
            == 0 by {
            assert(divide_spec(tokens, kinds) == seq![tokens.take(n)] + rest);
            assert((seq![tokens.take(n)] + rest)[j] == rest[j - 1]);
        }
    } else {
        assert(kinds.skip(1)[i - 1] == kinds[i]);
        lemma_multiple_drains(tokens.skip(n), kinds.skip(1), i - 1);
        let c2 = consumed_total(tokens.skip(n), kinds.skip(1).take(i - 1)) as int;
        assert(kinds.take(i).len() == i);
        assert(kinds.take(i)[0] == kinds[0]);
        assert(kinds.take(i).skip(1) =~= kinds.skip(1).take(i - 1));
        assert(consumed_total(tokens, kinds.take(i)) == consumed_count(kinds[0], tokens.len())
            + consumed_total(tokens.skip(n), kinds.take(i).skip(1)));
        lemma_consumed_total_le(tokens.skip(n), kinds.skip(1).take(i - 1));
        assert(tokens.skip(n).skip(c2) =~= tokens.skip(n + c2));
        assert(divide_spec(tokens, kinds) == seq![tokens.take(n)] + rest);
        assert((seq![tokens.take(n)] + rest)[i] == rest[i - 1]);
        assert forall|j: int|
            i < j < kinds.len() implies (#[trigger] divide_spec(tokens, kinds)[j]).len()
            == 0 by {
            assert(divide_spec(tokens, kinds) == seq![tokens.take(n)] + rest);
            assert((seq![tokens.take(n)] + rest)[j] == rest[j - 1]);
        }
    }
}

/// An empty group holds the first zero tokens, and a group of one held
/// first token holds the first one.
proof fn lemma_take_front(tokens: Seq<String>, group: Seq<String>)
    requires
        tokens.len() == 0 ==> group =~= Seq::<String>::empty(),
        tokens.len() > 0 ==> group =~= seq![tokens[0]],
    ensures
        group == tokens.take(consumed_count(ArgumentType::RequiredSingle, tokens.len()) as int),
        group == tokens.take(consumed_count(ArgumentType::OptionalSingle, tokens.len()) as int),
{
    if tokens.len() == 0 {
        assert(group =~= tokens.take(0));
    } else {
        assert(group =~= tokens.take(1));
    }
}

/// One distribution step preserves the cursor invariant: appending the
/// group a descriptor produced moves the remaining-suffix view of the
/// specification forward by that descriptor.
proof fn lemma_divide_cmd_step(
    tokens: Seq<String>,
    kinds: Seq<ArgumentType>,
    raws: Seq<Raw>,
    raw: Raw,
    start: int,
    cursor: int,
    j: int,
)
    requires
        0 <= j < kinds.len(),
        0 <= start <= cursor <= tokens.len(),
        cursor == start + consumed_count(kinds[j], (tokens.len() - start) as nat),
        raw@ == tokens.skip(start).take(consumed_count(kinds[j], (tokens.len() - start) as nat) as int),
        groups_of(raws) + divide_spec(tokens.skip(start), kinds.skip(j)) == divide_spec(
            tokens,
            kinds,
        ),
    ensures
        groups_of(raws.push(raw)) + divide_spec(tokens.skip(cursor), kinds.skip(j + 1))
            == divide_spec(tokens, kinds),
{
    let rest = tokens.skip(start);
    let n = consumed_count(kinds[j], rest.len()) as int;
    assert(rest.len() == tokens.len() - start);
    assert(kinds.skip(j)[0] == kinds[j]);
    assert(kinds.skip(j).skip(1) =~= kinds.skip(j + 1));
    assert(rest.skip(n) =~= tokens.skip(cursor));
    assert(divide_spec(rest, kinds.skip(j)) == seq![rest.take(n)] + divide_spec(
        tokens.skip(cursor),
        kinds.skip(j + 1),
    ));
    assert(groups_of(raws.push(raw)) =~= groups_of(raws).push(raw@));
    assert(groups_of(raws).push(raw@) + divide_spec(tokens.skip(cursor), kinds.skip(j + 1))
        =~= groups_of(raws) + (seq![rest.take(n)] + divide_spec(
        tokens.skip(cursor),
        kinds.skip(j + 1),
    )));
}

} // verus!

