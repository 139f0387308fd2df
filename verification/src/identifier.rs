//! Names of block types: a namespace and a path.

use vstd::prelude::*;
use vstd::string::StringExecFns;
use vstd::utf8::{encode_utf8, encode_utf8_decode_utf8};

verus! {

/// The namespace of the block types that ship with the game.
pub const DEFAULT_NAMESPACE: &'static str = "builtin";

/// A namespace and a path, written `namespace:path`.
#[derive(Debug)]
pub struct Identifier(pub String, pub String);

impl View for Identifier {
    type V = (Seq<char>, Seq<char>);

    open spec fn view(&self) -> (Seq<char>, Seq<char>) {
        (self.0@, self.1@)
    }
}

impl Clone for Identifier {
    fn clone(&self) -> (res: Self)
        ensures
            res == *self,
    {
        Identifier(self.0.clone(), self.1.clone())
    }
}

impl PartialEq for Identifier {
    fn eq(&self, other: &Self) -> (res: bool) {
        self.0 == other.0 && self.1 == other.1
    }
}

impl Eq for Identifier {

}

impl vstd::std_specs::cmp::PartialEqSpecImpl for Identifier {
    open spec fn obeys_eq_spec() -> bool {
        true
    }

    open spec fn eq_spec(&self, other: &Self) -> bool {
        self.0@ == other.0@ && self.1@ == other.1@
    }
}

impl Identifier {
    pub fn new(namespace: &str, path: &str) -> (id: Self)
        ensures
            id@ == (namespace@, path@),
    {
        Identifier(namespace.to_owned(), path.to_owned())
    }

    /// The written form: the namespace, a colon, the path.
    pub fn as_string(&self) -> (s: String)
        ensures
            s@ == self.0@ + seq![':'] + self.1@,
    {
        proof {
            reveal_strlit(":");
        }
        let mut s = self.0.clone();
        s.append(":");
        s.append(self.1.as_str());
        assert(":"@ =~= seq![':']);
        s
    }

    /// The same namespace with another path.
    pub fn with_path(&self, path: &str) -> (id: Self)
        ensures
            id.0 == self.0,
            id.1@ == path@,
    {
        Identifier(self.0.clone(), path.to_owned())
    }

    /// The same path in another namespace.
    pub fn with_namespace(&self, namespace: &str) -> (id: Self)
        ensures
            id.0@ == namespace@,
            id.1 == self.1,
    {
        Identifier(namespace.to_owned(), self.1.clone())
    }
}

/// How one value stands to another in an order.
#[derive(Clone, Copy, Debug, PartialEq, Eq, Structural)]
pub enum Rank {
    Before,
    Same,
    After,
}

/// True where `a` and `b` hold the same bytes at every place before `i`.
pub open spec fn agree_before(a: Seq<u8>, b: Seq<u8>, i: int) -> bool {
    &&& 0 <= i <= a.len()
    &&& i <= b.len()
    &&& forall|j: int| 0 <= j < i ==> a[j] == b[j]
}

/// True where place `i` shows that `a` comes before `b`: they agree before
/// it, and there `a` ends while `b` goes on, or holds the smaller byte.
pub open spec fn precede_at(a: Seq<u8>, b: Seq<u8>, i: int) -> bool {
    agree_before(a, b, i) && i < b.len() && (i == a.len() || a[i] < b[i])
}

/// The order of byte strings: by the first byte that differs, a string
/// before each string that it begins.
pub open spec fn bytes_precede(a: Seq<u8>, b: Seq<u8>) -> bool {
    exists|i: int| precede_at(a, b, i)
}

/// The order of identifiers: by the bytes of the namespace, then by the
/// bytes of the path.
pub open spec fn identifier_precedes(a: (Seq<char>, Seq<char>), b: (Seq<char>, Seq<char>)) -> bool {
    bytes_precede(encode_utf8(a.0), encode_utf8(b.0)) || (a.0 == b.0 && bytes_precede(
        encode_utf8(a.1),
        encode_utf8(b.1),
    ))
}

proof fn lemma_bytes_scan(a: Seq<u8>, b: Seq<u8>, i: int)
    requires
        agree_before(a, b, i),
    ensures
        a == b || bytes_precede(a, b) || bytes_precede(b, a),
    decreases a.len() - i,
{
    if i == a.len() {
        if i == b.len() {
            assert(a =~= b);
        } else {
            assert(precede_at(a, b, i));
        }
    } else if i == b.len() {
        assert(precede_at(b, a, i));
    } else if a[i] < b[i] {
        assert(precede_at(a, b, i));
    } else if a[i] > b[i] {
        assert(precede_at(b, a, i));
    } else {
        lemma_bytes_scan(a, b, i + 1);
    }
}

/// Of two byte strings that differ, one comes before the other.
pub proof fn lemma_bytes_total(a: Seq<u8>, b: Seq<u8>)
    ensures
        a == b || bytes_precede(a, b) || bytes_precede(b, a),
{
    lemma_bytes_scan(a, b, 0);
}

/// No byte string comes before one that comes before it, nor before itself.
pub proof fn lemma_bytes_asymmetric(a: Seq<u8>, b: Seq<u8>)
    requires
        bytes_precede(a, b),
    ensures
        !bytes_precede(b, a),
        a != b,
{
    let i = choose|i: int| precede_at(a, b, i);
    if bytes_precede(b, a) {
        let j = choose|j: int| precede_at(b, a, j);
        if i < j {
            assert(b[i] == a[i]);
        } else if j < i {
            assert(a[j] == b[j]);
        }
    }
}

/// What comes before a string that comes before a third comes before the
/// third.
pub proof fn lemma_bytes_transitive(a: Seq<u8>, b: Seq<u8>, c: Seq<u8>)
    requires
        bytes_precede(a, b),
        bytes_precede(b, c),
    ensures
        bytes_precede(a, c),
{
    let i = choose|i: int| precede_at(a, b, i);
    let j = choose|j: int| precede_at(b, c, j);
    if i <= j {
        assert(precede_at(a, c, i));
    } else {
        assert(precede_at(a, c, j));
    }
}

/// Of two identifiers that differ, one comes before the other.
pub proof fn lemma_identifier_total(a: (Seq<char>, Seq<char>), b: (Seq<char>, Seq<char>))
    ensures
        a == b || identifier_precedes(a, b) || identifier_precedes(b, a),
{
    lemma_bytes_total(encode_utf8(a.0), encode_utf8(b.0));
    lemma_bytes_total(encode_utf8(a.1), encode_utf8(b.1));
    encode_utf8_decode_utf8(a.0);
    encode_utf8_decode_utf8(b.0);
    encode_utf8_decode_utf8(a.1);
    encode_utf8_decode_utf8(b.1);
}

/// No identifier comes before one that comes before it, nor before itself.
pub proof fn lemma_identifier_asymmetric(a: (Seq<char>, Seq<char>), b: (Seq<char>, Seq<char>))
    requires
        identifier_precedes(a, b),
    ensures
        !identifier_precedes(b, a),
        a != b,
{
    if bytes_precede(encode_utf8(a.0), encode_utf8(b.0)) {
        lemma_bytes_asymmetric(encode_utf8(a.0), encode_utf8(b.0));
    } else {
        lemma_bytes_asymmetric(encode_utf8(a.1), encode_utf8(b.1));
        if bytes_precede(encode_utf8(b.0), encode_utf8(a.0)) {
            lemma_bytes_asymmetric(encode_utf8(b.0), encode_utf8(a.0));
        }
    }
}

/// What comes before an identifier that comes before a third comes before
/// the third.
pub proof fn lemma_identifier_transitive(
    a: (Seq<char>, Seq<char>),
    b: (Seq<char>, Seq<char>),
    c: (Seq<char>, Seq<char>),
)
    requires
        identifier_precedes(a, b),
        identifier_precedes(b, c),
    ensures
        identifier_precedes(a, c),
{
    let (a0, b0, c0) = (encode_utf8(a.0), encode_utf8(b.0), encode_utf8(c.0));
    let (a1, b1, c1) = (encode_utf8(a.1), encode_utf8(b.1), encode_utf8(c.1));
    if bytes_precede(a0, b0) {
        if bytes_precede(b0, c0) {
            lemma_bytes_transitive(a0, b0, c0);
        }
    } else if bytes_precede(b0, c0) {
    } else {
        lemma_bytes_transitive(a1, b1, c1);
    }
}

/// How the bytes `a` stand to the bytes `b`.
fn rank_bytes(a: &[u8], b: &[u8]) -> (rank: Rank)
    ensures
        rank == Rank::Before <==> bytes_precede(a@, b@),
        rank == Rank::Same <==> a@ == b@,
        rank == Rank::After <==> bytes_precede(b@, a@),
{
    let mut i: usize = 0;
    while i < a.len() && i < b.len()
        invariant
            agree_before(a@, b@, i as int),
        decreases a@.len() - i,
    {
        if a[i] < b[i] {
            proof {
                assert(precede_at(a@, b@, i as int));
                lemma_bytes_asymmetric(a@, b@);
            }
            return Rank::Before;
        }
        if a[i] > b[i] {
            proof {
                assert(precede_at(b@, a@, i as int));
                lemma_bytes_asymmetric(b@, a@);
            }
            return Rank::After;
        }
        i += 1;
    }
    if i < b.len() {
        proof {
            assert(precede_at(a@, b@, i as int));
            lemma_bytes_asymmetric(a@, b@);
        }
        Rank::Before
    } else if i < a.len() {
        proof {
            assert(precede_at(b@, a@, i as int));
            lemma_bytes_asymmetric(b@, a@);
        }
        Rank::After
    } else {
        proof {
            assert(a@ =~= b@);
            if bytes_precede(a@, b@) {
                lemma_bytes_asymmetric(a@, b@);
            }
        }
        Rank::Same
    }
}

impl Identifier {
    /// How this identifier stands to `other` in the order of identifiers.
    pub fn rank(&self, other: &Identifier) -> (rank: Rank)
        ensures
            rank == Rank::Before <==> identifier_precedes(self@, other@),
            rank == Rank::Same <==> self@ == other@,
            rank == Rank::After <==> identifier_precedes(other@, self@),
    {
        proof {
            encode_utf8_decode_utf8(self.0@);
            encode_utf8_decode_utf8(other.0@);
            encode_utf8_decode_utf8(self.1@);
            encode_utf8_decode_utf8(other.1@);
            if identifier_precedes(self@, other@) {
                lemma_identifier_asymmetric(self@, other@);
            }
            if identifier_precedes(other@, self@) {
                lemma_identifier_asymmetric(other@, self@);
            }
        }
        match rank_bytes(self.0.as_str().as_bytes(), other.0.as_str().as_bytes()) {
            Rank::Before => Rank::Before,
            Rank::After => Rank::After,
            Rank::Same => rank_bytes(self.1.as_str().as_bytes(), other.1.as_str().as_bytes()),
        }
    }
}

} // verus!
