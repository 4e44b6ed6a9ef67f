//! Aggregation: the names that extraction yields as a set, kept in one fixed
//! order, and the text of the file that lists them.

use vstd::prelude::*;
use vstd::string::{StringExecFns, StringSliceAdditionalSpecFns};
use vstd::utf8::{encode_utf8, encode_utf8_decode_utf8};

verus! {

/// Whether `a` comes before `b` in the order of a dictionary, byte by byte.
pub open spec fn lex_less(a: Seq<u8>, b: Seq<u8>) -> bool
    decreases a.len(),
{
    if b.len() == 0 {
        false
    } else if a.len() == 0 {
        true
    } else if a[0] != b[0] {
        a[0] < b[0]
    } else {
        lex_less(a.drop_first(), b.drop_first())
    }
}

/// Whether the name `a` comes before the name `b`: by their UTF-8 encodings.
pub open spec fn precedes(a: Seq<char>, b: Seq<char>) -> bool {
    lex_less(encode_utf8(a), encode_utf8(b))
}

/// Whether each name comes before all the names after it.
pub open spec fn ascending(names: Seq<Seq<char>>) -> bool {
    forall|i: int, j: int| 0 <= i < j < names.len() ==> precedes(names[i], names[j])
}

/// The names among `names`, each once, in ascending order.
pub open spec fn listing(names: Seq<Seq<char>>) -> Seq<Seq<char>> {
    choose|sorted: Seq<Seq<char>>| ascending(sorted) && sorted.to_set() == names.to_set()
}

/// The line that lists `name`.
pub open spec fn line_of(name: Seq<char>) -> Seq<char> {
    name + seq!['=', '\n']
}

/// The lines that list `names`, one line for each name.
pub open spec fn lines_of(names: Seq<Seq<char>>) -> Seq<Seq<char>> {
    names.map_values(|name: Seq<char>| line_of(name))
}

/// The text that lists `names`: their lines, one after the other.
pub open spec fn rendered(names: Seq<Seq<char>>) -> Seq<char> {
    lines_of(names).flatten()
}

/// No sequence of bytes comes before itself.
pub proof fn lemma_lex_irreflexive(a: Seq<u8>)
    ensures
        !lex_less(a, a),
    decreases a.len(),
{
    if a.len() > 0 {
        lemma_lex_irreflexive(a.drop_first());
    }
}

/// What comes before `b` comes before all that `b` comes before.
pub proof fn lemma_lex_transitive(a: Seq<u8>, b: Seq<u8>, c: Seq<u8>)
    requires
        lex_less(a, b),
        lex_less(b, c),
    ensures
        lex_less(a, c),
    decreases a.len(),
{
    if a.len() > 0 && b.len() > 0 && c.len() > 0 && a[0] == b[0] && b[0] == c[0] {
        lemma_lex_transitive(a.drop_first(), b.drop_first(), c.drop_first());
    }
}

/// Of two different sequences of bytes one comes before the other.
pub proof fn lemma_lex_total(a: Seq<u8>, b: Seq<u8>)
    ensures
        a == b || lex_less(a, b) || lex_less(b, a),
    decreases a.len(),
{
    if a.len() > 0 && b.len() > 0 {
        if a[0] == b[0] {
            lemma_lex_total(a.drop_first(), b.drop_first());
            if a.drop_first() == b.drop_first() {
                assert(a == seq![a[0]] + a.drop_first());
                assert(b == seq![b[0]] + b.drop_first());
            }
        }
    } else if a.len() == 0 && b.len() == 0 {
        assert(a == b);
    }
}

/// No name comes before itself.
pub proof fn lemma_precedes_irreflexive(a: Seq<char>)
    ensures
        !precedes(a, a),
{
    lemma_lex_irreflexive(encode_utf8(a));
}

/// What comes before a name comes before all that the name comes before.
pub proof fn lemma_precedes_transitive(a: Seq<char>, b: Seq<char>, c: Seq<char>)
    requires
        precedes(a, b),
        precedes(b, c),
    ensures
        precedes(a, c),
{
    lemma_lex_transitive(encode_utf8(a), encode_utf8(b), encode_utf8(c));
}

/// Of two different names one comes before the other.
pub proof fn lemma_precedes_total(a: Seq<char>, b: Seq<char>)
    ensures
        a == b || precedes(a, b) || precedes(b, a),
{
    lemma_lex_total(encode_utf8(a), encode_utf8(b));
    encode_utf8_decode_utf8(a);
    encode_utf8_decode_utf8(b);
}

/// An ascending sequence holds no name twice.
pub proof fn lemma_ascending_no_duplicates(names: Seq<Seq<char>>)
    requires
        ascending(names),
    ensures
        names.no_duplicates(),
{
    assert forall|i: int, j: int| 0 <= i < names.len() && 0 <= j < names.len() && i != j implies names[i]
        != names[j] by {
        lemma_precedes_irreflexive(names[i]);
    }
}

proof fn lemma_last_is_shared(x: Seq<Seq<char>>, y: Seq<Seq<char>>)
    requires
        ascending(x),
        ascending(y),
        x.len() > 0,
        y.len() > 0,
        x.to_set() == y.to_set(),
    ensures
        x.last() == y.last(),
{
    let xl = x.last();
    let yl = y.last();
    assert(x.to_set().contains(xl));
    assert(y.contains(xl));
    assert(y.to_set().contains(yl));
    assert(x.contains(yl));
    if xl != yl {
        let k = choose|k: int| 0 <= k < y.len() && y[k] == xl;
        assert(precedes(y[k], y[y.len() - 1]));
        let m = choose|m: int| 0 <= m < x.len() && x[m] == yl;
        assert(precedes(x[m], x[x.len() - 1]));
        lemma_precedes_transitive(xl, yl, xl);
        lemma_precedes_irreflexive(xl);
    }
}

proof fn lemma_front_is_covered(x: Seq<Seq<char>>, y: Seq<Seq<char>>)
    requires
        ascending(x),
        x.len() > 0,
        y.len() > 0,
        x.to_set() == y.to_set(),
        x.last() == y.last(),
    ensures
        forall|a: Seq<char>| x.drop_last().contains(a) ==> y.drop_last().contains(a),
{
    assert forall|a: Seq<char>| x.drop_last().contains(a) implies y.drop_last().contains(a) by {
        let i = choose|i: int| 0 <= i < x.drop_last().len() && x.drop_last()[i] == a;
        assert(x[i] == a);
        assert(precedes(x[i], x[x.len() - 1]));
        lemma_precedes_irreflexive(a);
        assert(x.to_set().contains(a));
        assert(y.contains(a));
        let k = choose|k: int| 0 <= k < y.len() && y[k] == a;
        assert(y.drop_last()[k] == a);
    }
}

/// Two ascending sequences of the same names are the same sequence.
pub proof fn lemma_ascending_unique(x: Seq<Seq<char>>, y: Seq<Seq<char>>)
    requires
        ascending(x),
        ascending(y),
        x.to_set() == y.to_set(),
    ensures
        x == y,
    decreases x.len(),
{
    if x.len() == 0 {
        if y.len() > 0 {
            assert(y.to_set().contains(y[0]));
            assert(x.contains(y[0]));
        }
        assert(x == y);
    } else if y.len() == 0 {
        assert(x.to_set().contains(x[0]));
        assert(y.contains(x[0]));
    } else {
        lemma_last_is_shared(x, y);
        lemma_front_is_covered(x, y);
        lemma_front_is_covered(y, x);
        assert(x.drop_last().to_set() == y.drop_last().to_set());
        lemma_ascending_unique(x.drop_last(), y.drop_last());
        assert(x == x.drop_last().push(x.last()));
        assert(y == y.drop_last().push(y.last()));
    }
}

/// An ascending sequence is the listing of its own names, and of any
/// sequence of the same names.
pub proof fn lemma_listing(sorted: Seq<Seq<char>>, names: Seq<Seq<char>>)
    requires
        ascending(sorted),
        sorted.to_set() == names.to_set(),
    ensures
        listing(names) == sorted,
{
    lemma_ascending_unique(listing(names), sorted);
}

/// Whether `a` comes before `b` in the order of a dictionary, byte by byte.
pub fn bytes_less(a: &[u8], b: &[u8]) -> (r: bool)
    ensures
        r == lex_less(a@, b@),
{
    let mut i: usize = 0;
    assert(a@.skip(0) == a@ && b@.skip(0) == b@);
    loop
        invariant
            i <= a.len(),
            i <= b.len(),
            lex_less(a@, b@) == lex_less(a@.skip(i as int), b@.skip(i as int)),
        decreases a.len() - i,
    {
        if i == b.len() {
            return false;
        }
        if i == a.len() {
            return true;
        }
        if a[i] != b[i] {
            return a[i] < b[i];
        }
        proof {
            assert(a@.skip(i as int).drop_first() == a@.skip(i + 1));
            assert(b@.skip(i as int).drop_first() == b@.skip(i + 1));
        }
        i += 1;
    }
}

/// Whether two texts are the same.
pub fn same_text(a: &str, b: &str) -> (r: bool)
    ensures
        r == (a@ == b@),
{
    proof {
        lemma_precedes_total(a@, b@);
        lemma_precedes_irreflexive(a@);
    }
    !bytes_less(a.as_bytes(), b.as_bytes()) && !bytes_less(b.as_bytes(), a.as_bytes())
}

/// A set of names, held in ascending order.
pub struct ResultSet {
    names: Vec<String>,
}

impl View for ResultSet {
    type V = Seq<Seq<char>>;

    /// The names of the set, in its order.
    closed spec fn view(&self) -> Seq<Seq<char>> {
        self.names.deep_view()
    }
}

impl ResultSet {
    #[verifier::type_invariant]
    spec fn sorted(&self) -> bool {
        ascending(self.names.deep_view())
    }

    /// The set without a name.
    pub fn new() -> (r: ResultSet)
        ensures
            r@ == Seq::<Seq<char>>::empty(),
    {
        let names: Vec<String> = Vec::new();
        assert(names.deep_view() == Seq::<Seq<char>>::empty());
        ResultSet { names }
    }

    /// How many names the set holds.
    pub fn len(&self) -> (r: usize)
        ensures
            r == self@.len(),
    {
        self.names.len()
    }

    /// The names of the set, in ascending order.
    pub fn names(&self) -> (r: &Vec<String>)
        ensures
            r.deep_view() == self@,
            ascending(self@),
    {
        proof {
            use_type_invariant(self);
        }
        &self.names
    }

    /// Whether the set holds `name`.
    pub fn contains(&self, name: &str) -> (r: bool)
        ensures
            r == self@.contains(name@),
    {
        let mut i: usize = 0;
        while i < self.names.len()
            invariant
                i <= self.names.len(),
                forall|k: int| 0 <= k < i ==> self@[k] != name@,
            decreases self.names.len() - i,
        {
            if same_text(self.names[i].as_str(), name) {
                assert(self@[i as int] == name@);
                return true;
            }
            i += 1;
        }
        false
    }

    /// Puts `name` into the set, at its place in the order. Tells whether the
    /// set did not hold it before.
    pub fn insert(&mut self, name: String) -> (added: bool)
        ensures
            added == !old(self)@.contains(name@),
            final(self)@.to_set() == old(self)@.to_set().insert(name@),
            ascending(final(self)@),
    {
        proof {
            use_type_invariant(&*self);
        }
        let ghost before = self.names.deep_view();
        let mut names: Vec<String> = Vec::new();
        assert(names.deep_view() == Seq::<Seq<char>>::empty());
        std::mem::swap(&mut self.names, &mut names);
        let mut at: usize = 0;
        while at < names.len() && bytes_less(
            names[at].as_str().as_bytes(),
            name.as_str().as_bytes(),
        )
            invariant
                at <= names.len(),
                names.deep_view() == before,
                forall|k: int| 0 <= k < at ==> precedes(before[k], name@),
            decreases names.len() - at,
        {
            at += 1;
        }
        if at < names.len() && names[at] == name {
            assert(before[at as int] == name@);
            assert(before.to_set().insert(name@) == before.to_set());
            self.names = names;
            return false;
        }
        proof {
            assert forall|k: int| at <= k < before.len() implies precedes(name@, before[k]) by {
                lemma_precedes_total(before[at as int], name@);
                if at < k {
                    lemma_precedes_transitive(name@, before[at as int], before[k]);
                }
            }
            assert forall|k: int| 0 <= k < before.len() implies before[k] != name@ by {
                lemma_precedes_irreflexive(name@);
            }
        }
        let ghost added_name = name@;
        names.insert(at, name);
        proof {
            let after = names.deep_view();
            assert(after == before.insert(at as int, added_name));
            assert forall|i: int, j: int| 0 <= i < j < after.len() implies precedes(
                after[i],
                after[j],
            ) by {
                if j < at {
                } else if j == at {
                } else if i < at {
                    assert(after[j] == before[j - 1]);
                    if at < j - 1 {
                    }
                    lemma_precedes_transitive(after[i], added_name, after[j]);
                } else if i == at {
                    assert(after[j] == before[j - 1]);
                } else {
                    assert(after[i] == before[i - 1]);
                    assert(after[j] == before[j - 1]);
                }
            }
            assert forall|x: Seq<char>| after.contains(x) <==> before.contains(x) || x
                == added_name by {
                if after.contains(x) {
                    let i = choose|i: int| 0 <= i < after.len() && after[i] == x;
                    if i < at {
                        assert(before[i] == x);
                    } else if i > at {
                        assert(before[i - 1] == x);
                    }
                }
                if before.contains(x) {
                    let i = choose|i: int| 0 <= i < before.len() && before[i] == x;
                    if i < at {
                        assert(after[i] == x);
                    } else {
                        assert(after[i + 1] == x);
                    }
                }
                if x == added_name {
                    assert(after[at as int] == x);
                }
            }
            assert(after.to_set() =~= before.to_set().insert(added_name));
        }
        self.names = names;
        true
    }

    /// Puts each of `names` into the set.
    pub fn extend(&mut self, names: Vec<String>)
        ensures
            final(self)@.to_set() == old(self)@.to_set().union(names.deep_view().to_set()),
            ascending(final(self)@),
    {
        proof {
            use_type_invariant(&*self);
        }
        let ghost before = self@;
        let ghost all = names.deep_view();
        assert(all.take(0).to_set() =~= Set::<Seq<char>>::empty());
        assert(before.to_set().union(all.take(0).to_set()) =~= before.to_set());
        for name in it: names
            invariant
                it.seq().len() == all.len(),
                forall|k: int| 0 <= k < all.len() ==> (#[trigger] it.seq()[k])@ == all[k],
                self@.to_set() == before.to_set().union(all.take(it.index() as int).to_set()),
                ascending(self@),
        {
            let ghost n = it.index() as int;
            assert(name@ == all[n]);
            self.insert(name);
            proof {
                assert(all.take(n + 1) == all.take(n).push(all[n]));
                all.take(n).lemma_push_to_set_commute(all[n]);
                assert(self@.to_set() =~= before.to_set().union(all.take(n + 1).to_set()));
            }
        }
        assert(all.take(all.len() as int) == all);
    }
}

/// The set of the names among `names`: each of them once, in ascending order.
pub fn aggregate(names: Vec<String>) -> (set: ResultSet)
    ensures
        set@ == listing(names.deep_view()),
        set@.to_set() == names.deep_view().to_set(),
        ascending(set@),
{
    let mut set = ResultSet::new();
    assert(set@.to_set() =~= Set::<Seq<char>>::empty());
    set.extend(names);
    assert(set@.to_set() =~= names.deep_view().to_set());
    proof {
        lemma_listing(set@, names.deep_view());
    }
    set
}

/// The text that lists the names of `set`: for each a line of the name and an
/// equals sign, in the order of the set.
pub fn render(set: &ResultSet) -> (text: String)
    ensures
        text@ == rendered(set@),
{
    let names = set.names();
    let mut text = String::new();
    let mut i: usize = 0;
    assert(lines_of(names.deep_view().take(0)) == Seq::<Seq<char>>::empty());
    while i < names.len()
        invariant
            i <= names.len(),
            text@ == rendered(names.deep_view().take(i as int)),
        decreases names.len() - i,
    {
        proof {
            reveal_strlit("=\n");
            assert("=\n"@ == seq!['=', '\n']);
            let done = lines_of(names.deep_view().take(i as int));
            let line = line_of(names[i as int]@);
            assert(lines_of(names.deep_view().take(i + 1)) == done.push(line));
            done.lemma_flatten_push(line);
        }
        text.append(names[i].as_str());
        text.append("=\n");
        i += 1;
    }
    assert(names.deep_view().take(i as int) == names.deep_view());
    text
}

} // verus!
