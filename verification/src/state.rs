//! The contract's persistent state, held as one explicit record.
//!
//! The host commits or rolls back a whole invocation, so every entry point
//! takes the state as a single mutable value and the storage substrate
//! that persists it stays outside the library.
use vstd::prelude::*;
use vstd::string::StrSliceExecFns;

verus! {

/// Lexicographic order on character sequences; on the names the registry
/// accepts, all ASCII, this is the byte order the storage substrate
/// iterates in.
pub open spec fn lex_lt(a: Seq<char>, b: Seq<char>) -> bool
    decreases a.len(),
{
    if b.len() == 0 {
        false
    } else if a.len() == 0 {
        true
    } else if a[0] != b[0] {
        (a[0] as u32) < (b[0] as u32)
    } else {
        lex_lt(a.drop_first(), b.drop_first())
    }
}

pub proof fn lemma_lex_lt_irrefl(a: Seq<char>)
    ensures
        !lex_lt(a, a),
    decreases a.len(),
{
    if a.len() > 0 {
        lemma_lex_lt_irrefl(a.drop_first());
    }
}

pub proof fn lemma_lex_lt_neq(a: Seq<char>, b: Seq<char>)
    requires
        lex_lt(a, b),
    ensures
        a != b,
{
    if a == b {
        lemma_lex_lt_irrefl(a);
    }
}

/// Two distinct sequences are ordered one way or the other.
pub proof fn lemma_lex_lt_connected(a: Seq<char>, b: Seq<char>)
    requires
        a != b,
    ensures
        lex_lt(a, b) || lex_lt(b, a),
    decreases a.len(),
{
    if a.len() == 0 || b.len() == 0 {
        if a.len() == 0 && b.len() == 0 {
            assert(a =~= b);
        }
    } else if a[0] != b[0] {
        let ua = a[0] as u32;
        let ub = b[0] as u32;
        vstd::utf8::char_u32_cast(a[0], ua);
        vstd::utf8::char_u32_cast(b[0], ub);
        assert(ua != ub);
        assert(ua < ub || ub < ua);
    } else {
        if a.drop_first() == b.drop_first() {
            assert(a =~= seq![a[0]] + a.drop_first());
            assert(b =~= seq![b[0]] + b.drop_first());
        }
        lemma_lex_lt_connected(a.drop_first(), b.drop_first());
    }
}

pub proof fn lemma_lex_lt_trans(a: Seq<char>, b: Seq<char>, c: Seq<char>)
    requires
        lex_lt(a, b),
        lex_lt(b, c),
    ensures
        lex_lt(a, c),
    decreases a.len() + b.len() + c.len(),
{
    if c.len() == 0 {
    } else if a.len() == 0 {
    } else if b.len() == 0 {
    } else {
        if a[0] == b[0] && b[0] == c[0] {
            lemma_lex_lt_trans(a.drop_first(), b.drop_first(), c.drop_first());
        }
    }
}

/// When two texts agree up to a position, their order is the order of
/// their remainders there.
pub proof fn lemma_lex_lt_skip(a: Seq<char>, b: Seq<char>, i: int)
    requires
        0 <= i <= a.len(),
        i <= b.len(),
        forall|k: int| 0 <= k < i ==> a[k] == b[k],
    ensures
        lex_lt(a, b) == lex_lt(a.skip(i), b.skip(i)),
    decreases i,
{
    if i > 0 {
        assert(a.len() > 0 && b.len() > 0 && a[0] == b[0]);
        assert(a.drop_first().len() == a.len() - 1);
        assert(forall|k: int| 0 <= k < i - 1 ==> a.drop_first()[k] == b.drop_first()[k]);
        lemma_lex_lt_skip(a.drop_first(), b.drop_first(), i - 1);
        assert(a.drop_first().skip(i - 1) =~= a.skip(i));
        assert(b.drop_first().skip(i - 1) =~= b.skip(i));
    } else {
        assert(a.skip(0) =~= a);
        assert(b.skip(0) =~= b);
    }
}

/// Compares two texts in lexicographic character order.
pub fn str_lt(a: &str, b: &str) -> (r: bool)
    ensures
        r == lex_lt(a@, b@),
{
    let la = a.unicode_len();
    let lb = b.unicode_len();
    let mut i: usize = 0;
    while i < la && i < lb
        invariant
            i <= la,
            i <= lb,
            la == a@.len(),
            lb == b@.len(),
            forall|k: int| 0 <= k < i ==> a@[k] == b@[k],
        decreases la - i,
    {
        let ca = a.get_char(i);
        let cb = b.get_char(i);
        if ca != cb {
            proof {
                lemma_lex_lt_skip(a@, b@, i as int);
                assert(a@.skip(i as int)[0] == ca && b@.skip(i as int)[0] == cb);
            }
            return (ca as u32) < (cb as u32);
        }
        i = i + 1;
    }
    proof {
        lemma_lex_lt_skip(a@, b@, i as int);
        if i == la {
            assert(a@.skip(i as int).len() == 0);
        }
        if i == lb {
            assert(b@.skip(i as int).len() == 0);
        }
    }
    la < lb
}

/// An amount of one currency denomination.
#[derive(Debug, Clone, PartialEq, Eq)]
pub struct Coin {
    pub denom: String,
    pub amount: u128,
}

/// Prices asked for registration and transfer; `None` means free.
#[derive(Debug, Clone, PartialEq, Eq)]
pub struct Config {
    pub purchase_price: Option<Coin>,
    pub transfer_price: Option<Coin>,
}

/// The owning identity a registered name resolves to.
#[derive(Debug, Clone, PartialEq, Eq)]
pub struct NameRecord {
    pub owner: String,
}

/// One registered name with its record.
#[derive(Debug, Clone, PartialEq, Eq)]
pub struct NameEntry {
    pub name: String,
    pub record: NameRecord,
}

/// Remote-assigned identifiers of sends the gateway accepted, in delivery
/// order of their continuations.
#[derive(Debug, Clone, PartialEq, Eq)]
pub struct PendingRequests {
    pub requests: Vec<u64>,
}

/// The whole persistent state: configuration, the name registry, the two
/// audit snapshots, the nonce cell and the pending-request ledger. A
/// `None` snapshot or ledger has never been written.
#[derive(Debug, Clone, PartialEq, Eq)]
pub struct ContractState {
    pub config: Config,
    pub name_resolver: Vec<NameEntry>,
    pub request: Option<Vec<u8>>,
    pub result: Option<Vec<u8>>,
    pub nonce: Option<u64>,
    pub pending: Option<PendingRequests>,
}

impl ContractState {
    /// Each name is registered at most once; the registry is kept in
    /// ascending key order, as the storage substrate iterates it; and it
    /// holds only names of the accepted alphabet.
    pub open spec fn wf(self) -> bool {
        &&& (forall|i: int, j: int|
            0 <= i < j < self.name_resolver@.len() ==> self.name_resolver@[i].name@
                != self.name_resolver@[j].name@)
        &&& (forall|i: int, j: int|
            0 <= i < j < self.name_resolver@.len() ==> lex_lt(
                self.name_resolver@[i].name@,
                self.name_resolver@[j].name@,
            ))
        &&& (forall|i: int|
            0 <= i < self.name_resolver@.len() ==> crate::helper::valid_name_chars(
                #[trigger] self.name_resolver@[i].name@,
            ))
    }

    /// Whether `name` is registered.
    pub open spec fn has_name(self, name: Seq<char>) -> bool {
        exists|i: int|
            #![trigger self.name_resolver@[i]]
            0 <= i < self.name_resolver@.len() && self.name_resolver@[i].name@ == name
    }

    /// The index at which `name` is registered.
    pub open spec fn name_idx(self, name: Seq<char>) -> int {
        choose|i: int|
            #![trigger self.name_resolver@[i]]
            0 <= i < self.name_resolver@.len() && self.name_resolver@[i].name@ == name
    }

    /// The owner `name` resolves to.
    pub open spec fn owner_of(self, name: Seq<char>) -> Seq<char> {
        self.name_resolver@[self.name_idx(name)].record.owner@
    }

    /// The ledger as a sequence, empty when never written.
    pub open spec fn pending_seq(self) -> Seq<u64> {
        match self.pending {
            Some(p) => p.requests@,
            None => Seq::empty(),
        }
    }

}

/// A copy of a priced-operation cell.
pub fn clone_opt_coin(oc: &Option<Coin>) -> (r: Option<Coin>)
    ensures
        r == *oc,
{
    match oc {
        None => None,
        Some(c) => Some(Coin { denom: c.denom.clone(), amount: c.amount }),
    }
}

/// With unique names, any registered index of `name` is the chosen one.
pub proof fn lemma_name_idx_unique(s: ContractState, name: Seq<char>, i: int)
    requires
        s.wf(),
        0 <= i < s.name_resolver@.len(),
        s.name_resolver@[i].name@ == name,
    ensures
        s.name_idx(name) == i,
{
    let j = s.name_idx(name);
    assert(0 <= j < s.name_resolver@.len() && s.name_resolver@[j].name@ == name);
    if i < j {
        assert(s.name_resolver@[i].name@ != s.name_resolver@[j].name@);
    } else if j < i {
        assert(s.name_resolver@[j].name@ != s.name_resolver@[i].name@);
    }
}

} // verus!
