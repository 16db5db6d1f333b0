//! The value tree: what a literal denotes.
//!
//! `Scalar`, `Reference`, `Hash` and `Array` are the executable tree.  `Value`
//! is its mathematical model, in which a hash is a map from keys to values and
//! so has no order.  Contracts speak of the model.

use vstd::prelude::*;
use vstd::std_specs::cmp::PartialEqSpecImpl;
use crate::text::all_digits;

verus! {

/// The mathematical value of a scalar.
pub enum Value {
    /// `undef`.
    Undefined,
    /// A 64-bit signed integer.
    Int(i64),
    /// A floating-point number, held as its decimal text.
    Float(Seq<char>),
    /// A string.
    String(Seq<char>),
    /// A reference to a hash.
    Hash(Map<Seq<char>, Value>),
    /// A reference to an array.
    Array(Seq<Value>),
    /// A reference to a scalar.
    Ref(Box<Value>),
}

/// A scalar value.
#[derive(Debug)]
pub enum Scalar {
    /// `undef`.
    Undefined,
    /// An integer literal.
    Int(i64),
    /// A number literal with a fractional part, as the decimal text that a
    /// floating-point conversion reads: an optional minus sign, digits, a
    /// point, digits and, where the literal has an exponent, `e` and the
    /// digits of the exponent.
    Float(String),
    /// A string literal, unescaped.
    String(String),
    /// A reference.
    Reference(Box<Reference>),
}

/// A hash: entries with distinct keys.  The order of the entries carries no
/// meaning.
#[derive(Debug)]
pub struct Hash(pub Vec<(String, Scalar)>);

/// An array: scalars in order.
#[derive(Debug)]
pub struct Array(pub Vec<Scalar>);

/// The three kinds of reference.
#[derive(Debug)]
pub enum Reference {
    /// `{ key => value, ... }`.
    Hash(Box<Hash>),
    /// `[ value, ... ]`.
    Array(Box<Array>),
    /// `\ value`.
    Scalar(Box<Scalar>),
}

/// The map that a list of entries denotes.  Where a key occurs twice, the
/// later entry holds.
pub open spec fn entries_map(e: Seq<(Seq<char>, Value)>) -> Map<Seq<char>, Value>
    decreases e.len(),
{
    if e.len() == 0 {
        Map::empty()
    } else {
        entries_map(e.drop_last()).insert(e.last().0, e.last().1)
    }
}

/// The text of a float: an optional minus sign, the digits of the whole
/// part, a point, the digits of the fraction and, where there is an exponent,
/// the letter `e` and the digits of the exponent.
pub open spec fn float_text(
    negative: bool,
    whole: Seq<char>,
    fraction: Seq<char>,
    exponent: Seq<char>,
) -> Seq<char> {
    (if negative {
        seq!['-']
    } else {
        Seq::empty()
    }) + whole + seq!['.'] + fraction + (if exponent.len() > 0 {
        seq!['e'] + exponent
    } else {
        Seq::empty()
    })
}

/// The text of a float: nothing but digits in its parts, and a digit at
/// least on each side of the point.
pub open spec fn is_float_text(t: Seq<char>) -> bool {
    exists|negative: bool, whole: Seq<char>, fraction: Seq<char>, exponent: Seq<char>|
        whole.len() > 0 && fraction.len() > 0 && all_digits(whole) && all_digits(fraction)
            && all_digits(exponent) && #[trigger] float_text(negative, whole, fraction, exponent)
            == t
}

/// The values of the scalars in `v`, in order.
pub open spec fn models(v: Seq<Scalar>) -> Seq<Value> {
    Seq::new(v.len(), |i: int| v[i].model())
}

/// The entries in `v`, each as key and value.
pub open spec fn entry_models(v: Seq<(String, Scalar)>) -> Seq<(Seq<char>, Value)> {
    Seq::new(v.len(), |i: int| (v[i].0@, v[i].1.model()))
}

/// The map that the entries in `v` denote.
pub open spec fn map_of(v: Seq<(String, Scalar)>) -> Map<Seq<char>, Value> {
    entries_map(entry_models(v))
}

/// No key occurs twice in `e`.
pub open spec fn distinct_keys(e: Seq<(Seq<char>, Value)>) -> bool {
    forall|i: int, j: int| 0 <= i < j < e.len() ==> (#[trigger] e[i]).0 != (#[trigger] e[j]).0
}

impl Scalar {
    /// The value of this scalar.
    pub open spec fn model(&self) -> Value
        decreases self,
    {
        match self {
            Scalar::Undefined => Value::Undefined,
            Scalar::Int(i) => Value::Int(*i),
            Scalar::Float(t) => Value::Float(t@),
            Scalar::String(t) => Value::String(t@),
            Scalar::Reference(r) => r.model(),
        }
    }

    /// Every float inside this scalar holds the text of a float, and every
    /// hash has distinct keys.
    pub open spec fn wf(&self) -> bool
        decreases self,
    {
        match self {
            Scalar::Float(t) => is_float_text(t@),
            Scalar::Reference(r) => r.wf(),
            _ => true,
        }
    }
}

impl Reference {
    /// The value of this reference.
    pub open spec fn model(&self) -> Value
        decreases self,
    {
        match self {
            Reference::Hash(h) => Value::Hash(entries_map(h.entries())),
            Reference::Array(a) => Value::Array(a.items()),
            Reference::Scalar(s) => Value::Ref(Box::new(s.model())),
        }
    }

    /// Every float inside this reference holds the text of a float, and
    /// every hash has distinct keys.
    pub open spec fn wf(&self) -> bool
        decreases self,
    {
        match self {
            Reference::Hash(h) => h.wf(),
            Reference::Array(a) => a.wf(),
            Reference::Scalar(s) => s.wf(),
        }
    }
}

impl Hash {
    /// The entries of this hash, each as key and value, in stored order.
    pub open spec fn entries(&self) -> Seq<(Seq<char>, Value)>
        decreases self,
    {
        Seq::new(
            self.0.len() as nat,
            |i: int|
                if 0 <= i < self.0.len() {
                    (self.0[i].0@, self.0[i].1.model())
                } else {
                    (Seq::empty(), Value::Undefined)
                },
        )
    }

    /// The keys are distinct, and every value is well formed.
    pub open spec fn wf(&self) -> bool
        decreases self,
    {
        &&& distinct_keys(self.entries())
        &&& forall|i: int| 0 <= i < self.0.len() ==> (#[trigger] self.0[i]).1.wf()
    }
}

impl Array {
    /// The values of the elements, in order.
    pub open spec fn items(&self) -> Seq<Value>
        decreases self,
    {
        Seq::new(
            self.0.len() as nat,
            |i: int|
                if 0 <= i < self.0.len() {
                    self.0[i].model()
                } else {
                    Value::Undefined
                },
        )
    }

    /// Every element is well formed.
    pub open spec fn wf(&self) -> bool
        decreases self,
    {
        forall|i: int| 0 <= i < self.0.len() ==> (#[trigger] self.0[i]).wf()
    }
}

impl View for Scalar {
    type V = Value;

    open spec fn view(&self) -> Value {
        self.model()
    }
}

impl View for Reference {
    type V = Value;

    open spec fn view(&self) -> Value {
        self.model()
    }
}

impl View for Hash {
    type V = Map<Seq<char>, Value>;

    open spec fn view(&self) -> Map<Seq<char>, Value> {
        entries_map(self.entries())
    }
}

impl View for Array {
    type V = Seq<Value>;

    open spec fn view(&self) -> Seq<Value> {
        self.items()
    }
}

impl Hash {
    /// The empty hash.
    pub fn new() -> (h: Hash)
        ensures
            h@ == Map::<Seq<char>, Value>::empty(),
            h.0@.len() == 0,
            h.wf(),
    {
        let h = Hash(Vec::new());
        assert(h.entries() == Seq::<(Seq<char>, Value)>::empty());
        h
    }

    /// The number of entries.
    pub fn len(&self) -> (n: usize)
        ensures
            n == self.0@.len(),
    {
        self.0.len()
    }

    /// The value of `key`, where the hash has one.
    pub fn get(&self, key: &str) -> (r: Option<&Scalar>)
        ensures
            match r {
                Some(v) => self@.dom().contains(key@) && v@ == self@[key@],
                None => !self@.dom().contains(key@),
            },
    {
        assert(self.entries() == entry_models(self.0@));
        let owned = key.to_owned();
        match find_last(&self.0, &owned) {
            Some(p) => Some(&self.0[p].1),
            None => None,
        }
    }

    /// Sets `key` to `value`: replaces the value of the entry that has this
    /// key, or adds an entry where there is none.
    pub fn insert(&mut self, key: String, value: Scalar)
        requires
            old(self).wf(),
            value.wf(),
        ensures
            final(self).wf(),
            final(self)@ == old(self)@.insert(key@, value@),
    {
        let ghost before = self.entries();
        let ghost k = key@;
        let ghost v = value.model();
        let n = self.0.len();
        let mut i: usize = 0;
        while i < n
            invariant
                i <= n,
                n == self.0@.len(),
                self == old(self),
                before == self.entries(),
                k == key@,
                v == value.model(),
                value.wf(),
                self.wf(),
                forall|j: int| 0 <= j < i ==> (#[trigger] before[j]).0 != k,
            decreases n - i,
        {
            if self.0[i].0 == key {
                assert(before[i as int].0 == k);
                self.0.set(i, (key, value));
                proof {
                    lemma_entries_update(before, i as int, v);
                    assert(self.entries() == before.update(i as int, (k, v)));
                    assert forall|j: int| 0 <= j < self.0.len() implies (#[trigger] self.0[j]).1.wf() by {
                        if j != i {
                            assert(self.0[j] == old(self).0[j]);
                        }
                    }
                }
                return ;
            }
            i += 1;
        }
        self.0.push((key, value));
        proof {
            lemma_entries_push(before, k, v);
            assert(self.entries() == before.push((k, v)));
            assert forall|j: int| 0 <= j < self.0.len() implies (#[trigger] self.0[j]).1.wf() by {
                if j < n {
                    assert(self.0[j] == old(self).0[j]);
                }
            }
        }
    }
}

/// Appending an entry sets its key in the map.
pub proof fn lemma_entries_push(e: Seq<(Seq<char>, Value)>, k: Seq<char>, v: Value)
    ensures
        entries_map(e.push((k, v))) == entries_map(e).insert(k, v),
{
    assert(e.push((k, v)).drop_last() == e);
}

/// Replacing the value of an entry sets its key in the map, as long as no
/// key occurs twice.
pub proof fn lemma_entries_update(e: Seq<(Seq<char>, Value)>, i: int, v: Value)
    requires
        0 <= i < e.len(),
        distinct_keys(e),
    ensures
        entries_map(e.update(i, (e[i].0, v))) == entries_map(e).insert(e[i].0, v),
        distinct_keys(e.update(i, (e[i].0, v))),
    decreases e.len(),
{
    let k = e[i].0;
    let u = e.update(i, (k, v));
    assert(distinct_keys(u)) by {
        assert forall|a: int, b: int| 0 <= a < b < u.len() implies (#[trigger] u[a]).0 != (
        #[trigger] u[b]).0 by {
            assert(u[a].0 == e[a].0);
            assert(u[b].0 == e[b].0);
        }
    }
    let last = e.len() - 1;
    if i == last {
        assert(u.drop_last() == e.drop_last());
        assert(entries_map(e.drop_last()).insert(k, e[i].1).insert(k, v) == entries_map(
            e.drop_last(),
        ).insert(k, v));
    } else {
        let front = e.drop_last();
        assert(distinct_keys(front)) by {
            assert forall|a: int, b: int| 0 <= a < b < front.len() implies (#[trigger] front[a]).0
                != (#[trigger] front[b]).0 by {
                assert(front[a] == e[a]);
                assert(front[b] == e[b]);
            }
        }
        lemma_entries_update(front, i, v);
        assert(front[i] == e[i]);
        assert(u.drop_last() == front.update(i, (k, v)));
        assert(u.last() == e.last());
        assert(e[last].0 != e[i].0);
        assert(entries_map(front).insert(k, v).insert(e.last().0, e.last().1) == entries_map(
            front,
        ).insert(e.last().0, e.last().1).insert(k, v));
    }
}

/// A key is in the map exactly when some entry has it.
pub proof fn lemma_entries_dom(e: Seq<(Seq<char>, Value)>, k: Seq<char>)
    ensures
        entries_map(e).dom().contains(k) <==> exists|i: int| 0 <= i < e.len() && (#[trigger] e[i]).0 == k,
    decreases e.len(),
{
    if e.len() > 0 {
        let front = e.drop_last();
        lemma_entries_dom(front, k);
        if exists|i: int| 0 <= i < front.len() && (#[trigger] front[i]).0 == k {
            let i = choose|i: int| 0 <= i < front.len() && (#[trigger] front[i]).0 == k;
            assert(e[i] == front[i]);
        }
        if exists|i: int| 0 <= i < e.len() && (#[trigger] e[i]).0 == k {
            let i = choose|i: int| 0 <= i < e.len() && (#[trigger] e[i]).0 == k;
            if i < e.len() - 1 {
                assert(e[i] == front[i]);
            }
        }
    }
}

/// A copy of `value`.
fn copy_scalar(value: &Scalar) -> (copy: Scalar)
    ensures
        copy@ == value@,
        value.wf() ==> copy.wf(),
    decreases value,
{
    match value {
        Scalar::Undefined => Scalar::Undefined,
        Scalar::Int(i) => Scalar::Int(*i),
        Scalar::Float(t) => Scalar::Float(t.clone()),
        Scalar::String(t) => Scalar::String(t.clone()),
        Scalar::Reference(r) => Scalar::Reference(Box::new(copy_reference(r))),
    }
}

/// A copy of `target`.
#[verifier::loop_isolation(false)]
fn copy_reference(target: &Reference) -> (copy: Reference)
    ensures
        copy@ == target@,
        target.wf() ==> copy.wf(),
    decreases target,
{
    match target {
        Reference::Hash(h) => {
            let mut entries: Vec<(String, Scalar)> = Vec::new();
            let n = h.0.len();
            let mut i: usize = 0;
            while i < n
                invariant
                    i <= n,
                    n == h.0@.len(),
                    entries@.len() == i,
                    forall|k: int|
                        0 <= k < i ==> (#[trigger] entries@[k]).0@ == h.0@[k].0@ && entries@[k].1@
                            == h.0@[k].1@ && (h.0@[k].1.wf() ==> entries@[k].1.wf()),
                decreases n - i,
            {
                let key = h.0[i].0.clone();
                let value = copy_scalar(&h.0[i].1);
                entries.push((key, value));
                i += 1;
            }
            let copy = Hash(entries);
            assert(copy.entries() == h.entries());
            Reference::Hash(Box::new(copy))
        },
        Reference::Array(a) => {
            let mut items: Vec<Scalar> = Vec::new();
            let n = a.0.len();
            let mut i: usize = 0;
            while i < n
                invariant
                    i <= n,
                    n == a.0@.len(),
                    items@.len() == i,
                    forall|k: int|
                        0 <= k < i ==> (#[trigger] items@[k])@ == a.0@[k]@ && (a.0@[k].wf()
                            ==> items@[k].wf()),
                decreases n - i,
            {
                let value = copy_scalar(&a.0[i]);
                items.push(value);
                i += 1;
            }
            let copy = Array(items);
            assert(copy.items() == a.items());
            Reference::Array(Box::new(copy))
        },
        Reference::Scalar(s) => Reference::Scalar(Box::new(copy_scalar(s))),
    }
}

impl Clone for Scalar {
    fn clone(&self) -> (copy: Scalar)
        ensures
            copy@ == self@,
            self.wf() ==> copy.wf(),
    {
        copy_scalar(self)
    }
}

impl Clone for Reference {
    fn clone(&self) -> (copy: Reference)
        ensures
            copy@ == self@,
            self.wf() ==> copy.wf(),
    {
        copy_reference(self)
    }
}

/// The last entry with a key holds the value of that key in the map.
pub proof fn lemma_entries_last(e: Seq<(Seq<char>, Value)>, p: int)
    requires
        0 <= p < e.len(),
        forall|j: int| p < j < e.len() ==> (#[trigger] e[j]).0 != e[p].0,
    ensures
        entries_map(e).dom().contains(e[p].0),
        entries_map(e)[e[p].0] == e[p].1,
    decreases e.len(),
{
    let front = e.drop_last();
    if p < e.len() - 1 {
        assert(front[p] == e[p]);
        assert forall|j: int| p < j < front.len() implies (#[trigger] front[j]).0 != front[p].0 by {
            assert(front[j] == e[j]);
        }
        lemma_entries_last(front, p);
        assert(e[e.len() - 1].0 != e[p].0);
    }
}

/// The index of the last entry with the key `key`.
fn find_last(entries: &Vec<(String, Scalar)>, key: &String) -> (r: Option<usize>)
    ensures
        match r {
            Some(p) => p < entries@.len() && entries@[p as int].0@ == key@ && map_of(
                entries@,
            ).dom().contains(key@) && map_of(entries@)[key@] == entries@[p as int].1@,
            None => !map_of(entries@).dom().contains(key@),
        },
{
    let ghost e = entry_models(entries@);
    let mut i: usize = entries.len();
    while i > 0
        invariant
            i <= entries@.len(),
            e == entry_models(entries@),
            forall|j: int| i <= j < entries@.len() ==> (#[trigger] e[j]).0 != key@,
        decreases i,
    {
        i -= 1;
        if entries[i].0 == *key {
            proof {
                assert(e[i as int].0 == key@);
                lemma_entries_last(e, i as int);
            }
            return Some(i);
        }
    }
    proof {
        lemma_entries_dom(e, key@);
    }
    None
}

/// Whether `a` and `b` have the same value.
fn same_scalar(a: &Scalar, b: &Scalar) -> (r: bool)
    ensures
        r == (a@ == b@),
    decreases a,
{
    match (a, b) {
        (Scalar::Undefined, Scalar::Undefined) => true,
        (Scalar::Int(x), Scalar::Int(y)) => *x == *y,
        (Scalar::Float(x), Scalar::Float(y)) => *x == *y,
        (Scalar::String(x), Scalar::String(y)) => *x == *y,
        (Scalar::Reference(x), Scalar::Reference(y)) => same_reference(x, y),
        _ => false,
    }
}

/// Whether `a` and `b` have the same value.
fn same_reference(a: &Reference, b: &Reference) -> (r: bool)
    ensures
        r == (a@ == b@),
    decreases a,
{
    match (a, b) {
        (Reference::Hash(x), Reference::Hash(y)) => {
            let r = same_entries(&x.0, &y.0);
            assert(x.entries() == entry_models(x.0@));
            assert(y.entries() == entry_models(y.0@));
            r
        },
        (Reference::Array(x), Reference::Array(y)) => {
            let r = same_items(&x.0, &y.0);
            assert(x.items() == models(x.0@));
            assert(y.items() == models(y.0@));
            r
        },
        (Reference::Scalar(x), Reference::Scalar(y)) => same_scalar(x, y),
        _ => false,
    }
}

/// Whether `a` and `b` hold the same values in the same order.
fn same_items(a: &Vec<Scalar>, b: &Vec<Scalar>) -> (r: bool)
    ensures
        r == (models(a@) == models(b@)),
    decreases a,
{
    if a.len() != b.len() {
        assert(models(a@).len() != models(b@).len());
        return false;
    }
    let n = a.len();
    let mut i: usize = 0;
    while i < n
        invariant
            i <= n,
            n == a@.len(),
            n == b@.len(),
            forall|k: int| 0 <= k < i ==> (#[trigger] a@[k])@ == b@[k]@,
        decreases n - i,
    {
        if !same_scalar(&a[i], &b[i]) {
            assert(models(a@)[i as int] != models(b@)[i as int]);
            return false;
        }
        i += 1;
    }
    assert(models(a@) =~= models(b@));
    true
}

/// Whether `a` and `b` denote the same map.
fn same_entries(a: &Vec<(String, Scalar)>, b: &Vec<(String, Scalar)>) -> (r: bool)
    ensures
        r == (map_of(a@) == map_of(b@)),
    decreases a,
{
    let ghost ma = map_of(a@);
    let ghost mb = map_of(b@);
    let mut i: usize = 0;
    while i < a.len()
        invariant
            i <= a@.len(),
            ma == map_of(a@),
            mb == map_of(b@),
            forall|k: int|
                0 <= k < i ==> ma.dom().contains((#[trigger] a@[k]).0@) && mb.dom().contains(
                    a@[k].0@,
                ) && ma[a@[k].0@] == mb[a@[k].0@],
        decreases a@.len() - i,
    {
        let key = &a[i].0;
        match (find_last(a, key), find_last(b, key)) {
            (Some(p), Some(q)) => {
                if !same_scalar(&a[p].1, &b[q].1) {
                    assert(ma[key@] != mb[key@]);
                    return false;
                }
            },
            (Some(p), None) => {
                assert(ma.dom().contains(key@) && !mb.dom().contains(key@));
                return false;
            },
            (None, _) => {
                proof {
                    lemma_entries_dom(entry_models(a@), key@);
                    assert(entry_models(a@)[i as int].0 == key@);
                }
                return false;
            },
        }
        i += 1;
    }
    let mut j: usize = 0;
    while j < b.len()
        invariant
            j <= b@.len(),
            ma == map_of(a@),
            mb == map_of(b@),
            forall|k: int| 0 <= k < j ==> ma.dom().contains((#[trigger] b@[k]).0@),
        decreases b@.len() - j,
    {
        let key = &b[j].0;
        if find_last(a, key).is_none() {
            proof {
                lemma_entries_dom(entry_models(b@), key@);
                assert(entry_models(b@)[j as int].0 == key@);
                assert(mb.dom().contains(key@) && !ma.dom().contains(key@));
            }
            return false;
        }
        j += 1;
    }
    proof {
        assert forall|k: Seq<char>| #[trigger] ma.dom().contains(k) implies mb.dom().contains(k)
            && ma[k] == mb[k] by {
            lemma_entries_dom(entry_models(a@), k);
            let x = choose|x: int|
                0 <= x < entry_models(a@).len() && (#[trigger] entry_models(a@)[x]).0 == k;
            assert(a@[x].0@ == k);
        }
        assert forall|k: Seq<char>| #[trigger] mb.dom().contains(k) implies ma.dom().contains(
            k,
        ) by {
            lemma_entries_dom(entry_models(b@), k);
            let x = choose|x: int|
                0 <= x < entry_models(b@).len() && (#[trigger] entry_models(b@)[x]).0 == k;
            assert(b@[x].0@ == k);
        }
        assert(ma =~= mb);
    }
    true
}

impl PartialEq for Scalar {
    fn eq(&self, other: &Scalar) -> (r: bool) {
        same_scalar(self, other)
    }
}

impl PartialEqSpecImpl for Scalar {
    open spec fn obeys_eq_spec() -> bool {
        true
    }

    open spec fn eq_spec(&self, other: &Scalar) -> bool {
        self@ == other@
    }
}

impl PartialEq for Reference {
    fn eq(&self, other: &Reference) -> (r: bool) {
        same_reference(self, other)
    }
}

impl PartialEqSpecImpl for Reference {
    open spec fn obeys_eq_spec() -> bool {
        true
    }

    open spec fn eq_spec(&self, other: &Reference) -> bool {
        self@ == other@
    }
}

impl PartialEq for Hash {
    fn eq(&self, other: &Hash) -> (r: bool) {
        let r = same_entries(&self.0, &other.0);
        assert(self.entries() == entry_models(self.0@));
        assert(other.entries() == entry_models(other.0@));
        r
    }
}

impl PartialEqSpecImpl for Hash {
    open spec fn obeys_eq_spec() -> bool {
        true
    }

    open spec fn eq_spec(&self, other: &Hash) -> bool {
        self@ == other@
    }
}

impl PartialEq for Array {
    fn eq(&self, other: &Array) -> (r: bool) {
        let r = same_items(&self.0, &other.0);
        assert(self.items() == models(self.0@));
        assert(other.items() == models(other.0@));
        r
    }
}

impl PartialEqSpecImpl for Array {
    open spec fn obeys_eq_spec() -> bool {
        true
    }

    open spec fn eq_spec(&self, other: &Array) -> bool {
        self@ == other@
    }
}

} // verus!
