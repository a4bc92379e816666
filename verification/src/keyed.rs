use vstd::prelude::*;
use vstd::utf8::encode_utf8;

verus! {

/// A value filed under a name.
#[derive(Clone, Debug, PartialEq, Eq)]
pub struct Named<T> {
    pub name: String,
    pub value: T,
}

/// A named value with its name taken by value.
#[verifier::ext_equal]
pub struct NamedView<T> {
    pub name: Seq<char>,
    pub value: T,
}

impl<T> View for Named<T> {
    type V = NamedView<T>;

    open spec fn view(&self) -> NamedView<T> {
        NamedView { name: self.name@, value: self.value }
    }
}

/// The entries of a list of named values, each by its view.
pub open spec fn names_view<T>(v: Seq<Named<T>>) -> Seq<NamedView<T>> {
    v.map_values(|e: Named<T>| e@)
}

/// `i` is the first position that holds `name`.
pub open spec fn is_first_name<T>(s: Seq<NamedView<T>>, name: Seq<char>, i: int) -> bool {
    &&& 0 <= i < s.len()
    &&& s[i].name == name
    &&& forall|j: int| 0 <= j < i ==> s[j].name != name
}

/// The first position that holds `name`, or -1.
pub open spec fn name_index<T>(s: Seq<NamedView<T>>, name: Seq<char>) -> int {
    if exists|i: int| is_first_name(s, name, i) {
        choose|i: int| is_first_name(s, name, i)
    } else {
        -1
    }
}

/// The value filed under `name`, if any.
pub open spec fn name_lookup<T>(s: Seq<NamedView<T>>, name: Seq<char>) -> Option<T> {
    let i = name_index(s, name);
    if i >= 0 {
        Some(s[i].value)
    } else {
        None
    }
}

/// `name` refiled with `value`: in place where it is, else appended.
pub open spec fn name_upsert<T>(s: Seq<NamedView<T>>, name: Seq<char>, value: T) -> Seq<
    NamedView<T>,
> {
    let i = name_index(s, name);
    if i >= 0 {
        s.update(i, NamedView { name, value })
    } else {
        s.push(NamedView { name, value })
    }
}

pub proof fn lemma_name_index_found<T>(s: Seq<NamedView<T>>, name: Seq<char>, i: int)
    requires
        is_first_name(s, name, i),
    ensures
        name_index(s, name) == i,
{
    let c = choose|c: int| is_first_name(s, name, c);
    assert(is_first_name(s, name, c));
    if c < i {
        assert(s[c].name != name);
    } else if c > i {
        assert(s[i].name != name);
    }
}

pub proof fn lemma_name_index_absent<T>(s: Seq<NamedView<T>>, name: Seq<char>)
    requires
        forall|j: int| 0 <= j < s.len() ==> s[j].name != name,
    ensures
        name_index(s, name) == -1,
{
}

/// The position of `name` in `v`, if it is there.
pub fn find_name<T>(v: &Vec<Named<T>>, name: &String) -> (r: Option<usize>)
    ensures
        match r {
            Some(i) => i as int == name_index(names_view(v@), name@) && i < v@.len(),
            None => name_index(names_view(v@), name@) == -1,
        },
{
    let ghost s = names_view(v@);
    let mut i: usize = 0;
    while i < v.len()
        invariant
            i <= v@.len(),
            s == names_view(v@),
            forall|j: int| 0 <= j < i ==> s[j].name != name@,
        decreases v@.len() - i,
    {
        if v[i].name == *name {
            proof {
                lemma_name_index_found(s, name@, i as int);
            }
            return Some(i);
        }
        i += 1;
    }
    proof {
        lemma_name_index_absent(s, name@);
    }
    None
}

/// Refiles `name` with `value`.
pub fn upsert_name<T>(v: &mut Vec<Named<T>>, name: &String, value: T)
    ensures
        names_view(final(v)@) == name_upsert(names_view(old(v)@), name@, value),
{
    let ghost s = names_view(v@);
    match find_name(v, name) {
        Some(i) => {
            v[i] = Named { name: name.clone(), value };
            assert(names_view(v@) =~= s.update(i as int, NamedView { name: name@, value }));
        },
        None => {
            v.push(Named { name: name.clone(), value });
            assert(names_view(v@) =~= s.push(NamedView { name: name@, value }));
        },
    }
}

// ---------------------------------------------------------------------------
// The byte order of names
// ---------------------------------------------------------------------------

/// Lexicographic order on byte strings, a proper prefix first.
pub open spec fn bytes_lt(a: Seq<u8>, b: Seq<u8>) -> bool
    decreases a.len(),
{
    if a.len() == 0 {
        b.len() > 0
    } else if b.len() == 0 {
        false
    } else if a[0] != b[0] {
        a[0] < b[0]
    } else {
        bytes_lt(a.drop_first(), b.drop_first())
    }
}

/// The order of names by their UTF-8 bytes, which is the order of `String`.
pub open spec fn name_lt(a: Seq<char>, b: Seq<char>) -> bool {
    bytes_lt(encode_utf8(a), encode_utf8(b))
}

proof fn lemma_bytes_lt_skip(a: Seq<u8>, b: Seq<u8>, i: int)
    requires
        0 <= i <= a.len(),
        i <= b.len(),
        a.take(i) == b.take(i),
    ensures
        bytes_lt(a, b) == bytes_lt(a.skip(i), b.skip(i)),
    decreases i,
{
    if i > 0 {
        assert(a[0] == a.take(i)[0]);
        assert(b[0] == b.take(i)[0]);
        assert(a.drop_first().take(i - 1) =~= a.take(i).drop_first());
        assert(b.drop_first().take(i - 1) =~= b.take(i).drop_first());
        lemma_bytes_lt_skip(a.drop_first(), b.drop_first(), i - 1);
        assert(a.drop_first().skip(i - 1) =~= a.skip(i));
        assert(b.drop_first().skip(i - 1) =~= b.skip(i));
    } else {
        assert(a.skip(0) =~= a);
        assert(b.skip(0) =~= b);
    }
}

/// Whether `a` sorts before `b`.
pub fn str_less(a: &str, b: &str) -> (r: bool)
    ensures
        r == name_lt(a@, b@),
{
    let x = a.as_bytes();
    let y = b.as_bytes();
    let ghost xs = x@;
    let ghost ys = y@;
    let mut i: usize = 0;
    while i < x.len() && i < y.len()
        invariant
            xs == x@,
            ys == y@,
            xs == encode_utf8(a@),
            ys == encode_utf8(b@),
            i <= xs.len(),
            i <= ys.len(),
            xs.take(i as int) == ys.take(i as int),
        decreases xs.len() - i,
    {
        if x[i] != y[i] {
            proof {
                lemma_bytes_lt_skip(xs, ys, i as int);
            }
            return x[i] < y[i];
        }
        assert(xs.take(i + 1) =~= xs.take(i as int).push(xs[i as int]));
        assert(ys.take(i + 1) =~= ys.take(i as int).push(ys[i as int]));
        i += 1;
    }
    proof {
        lemma_bytes_lt_skip(xs, ys, i as int);
    }
    i == x.len() && i < y.len()
}

/// `p` is the first position whose name does not sort before `name`.
pub open spec fn is_insert_pos<T>(s: Seq<NamedView<T>>, name: Seq<char>, p: int) -> bool {
    &&& 0 <= p <= s.len()
    &&& forall|j: int| 0 <= j < p ==> name_lt(s[j].name, name)
    &&& (p < s.len() ==> !name_lt(s[p].name, name))
}

/// Where `name` goes in a list kept in name order.
pub open spec fn insert_pos<T>(s: Seq<NamedView<T>>, name: Seq<char>) -> int {
    choose|p: int| is_insert_pos(s, name, p)
}

pub proof fn lemma_insert_pos<T>(s: Seq<NamedView<T>>, name: Seq<char>, p: int)
    requires
        is_insert_pos(s, name, p),
    ensures
        insert_pos(s, name) == p,
{
    let c = choose|c: int| is_insert_pos(s, name, c);
    assert(is_insert_pos(s, name, c));
    if c < p {
        assert(name_lt(s[c].name, name));
    } else if c > p {
        assert(name_lt(s[p].name, name));
    }
}

/// Every name has a place in a list: the insertion position lies within it.
pub proof fn lemma_insert_pos_range<T>(s: Seq<NamedView<T>>, name: Seq<char>)
    ensures
        is_insert_pos(s, name, insert_pos(s, name)),
        0 <= insert_pos(s, name) <= s.len(),
    decreases s.len(),
{
    if s.len() == 0 {
        lemma_insert_pos(s, name, 0);
    } else {
        let d = s.drop_last();
        lemma_insert_pos_range(d, name);
        let q = insert_pos(d, name);
        let p = if q < d.len() {
            q
        } else if name_lt(s[s.len() - 1].name, name) {
            s.len() as int
        } else {
            d.len() as int
        };
        assert forall|j: int| 0 <= j < p implies name_lt(s[j].name, name) by {
            if j < d.len() {
                assert(s[j] == d[j]);
            }
        }
        if q < d.len() {
            assert(s[q] == d[q]);
        }
        assert(is_insert_pos(s, name, p));
        lemma_insert_pos(s, name, p);
    }
}

/// `name` refiled with `value`: in place where it is, else inserted in name order.
pub open spec fn name_sorted_upsert<T>(s: Seq<NamedView<T>>, name: Seq<char>, value: T) -> Seq<
    NamedView<T>,
> {
    let i = name_index(s, name);
    if i >= 0 {
        s.update(i, NamedView { name, value })
    } else {
        s.insert(insert_pos(s, name), NamedView { name, value })
    }
}

/// The first position whose name does not sort before `name`.
pub fn find_insert_pos<T>(v: &Vec<Named<T>>, name: &String) -> (r: usize)
    ensures
        r as int == insert_pos(names_view(v@), name@),
        r <= v@.len(),
{
    let ghost s = names_view(v@);
    let mut i: usize = 0;
    while i < v.len()
        invariant
            i <= v@.len(),
            s == names_view(v@),
            forall|j: int| 0 <= j < i ==> name_lt(s[j].name, name@),
        decreases v@.len() - i,
    {
        if !str_less(v[i].name.as_str(), name.as_str()) {
            proof {
                lemma_insert_pos(s, name@, i as int);
            }
            return i;
        }
        i += 1;
    }
    proof {
        lemma_insert_pos(s, name@, i as int);
    }
    i
}

/// Refiles `name` with `value`, keeping a name-ordered list in order.
pub fn sorted_upsert_name<T>(v: &mut Vec<Named<T>>, name: &String, value: T)
    ensures
        names_view(final(v)@) == name_sorted_upsert(names_view(old(v)@), name@, value),
{
    let ghost s = names_view(v@);
    match find_name(v, name) {
        Some(i) => {
            v[i] = Named { name: name.clone(), value };
            assert(names_view(v@) =~= s.update(i as int, NamedView { name: name@, value }));
        },
        None => {
            let p = find_insert_pos(v, name);
            v.insert(p, Named { name: name.clone(), value });
            assert(names_view(v@) =~= s.insert(p as int, NamedView { name: name@, value }));
        },
    }
}

} // verus!

verus! {

/// Refiling keeps a property that the old values and the new value all have.
pub proof fn lemma_name_upsert_preserves<T>(
    s: Seq<NamedView<T>>,
    name: Seq<char>,
    value: T,
    p: spec_fn(T) -> bool,
)
    requires
        forall|j: int| 0 <= j < s.len() ==> p(#[trigger] s[j].value),
        p(value),
    ensures
        forall|j: int|
            0 <= j < name_upsert(s, name, value).len() ==> p(
                #[trigger] name_upsert(s, name, value)[j].value,
            ),
{
}

/// A looked-up value is one of the list's values.
pub proof fn lemma_name_lookup_in<T>(s: Seq<NamedView<T>>, name: Seq<char>)
    ensures
        name_lookup(s, name) matches Some(v) ==> exists|j: int|
            0 <= j < s.len() && s[j].value == v && s[j].name == name,
{
    let i = name_index(s, name);
    if i >= 0 {
        assert(is_first_name(s, name, i));
    }
}

} // verus!

verus! {

/// A name that occurs has a first occurrence.
pub proof fn lemma_name_has_first<T>(s: Seq<NamedView<T>>, name: Seq<char>, j: int)
    requires
        0 <= j < s.len(),
        s[j].name == name,
    ensures
        name_index(s, name) >= 0,
        name_index(s, name) <= j,
    decreases j,
{
    if forall|l: int| 0 <= l < j ==> s[l].name != name {
        assert(is_first_name(s, name, j));
        lemma_name_index_found(s, name, j);
    } else {
        let l = choose|l: int| 0 <= l < j && s[l].name == name;
        lemma_name_has_first(s, name, l);
    }
}

/// After refiling `name`, it holds `value` and every other name holds what it held.
pub proof fn lemma_name_upsert_lookup<T>(s: Seq<NamedView<T>>, name: Seq<char>, value: T)
    ensures
        name_lookup(name_upsert(s, name, value), name) == Some(value),
        forall|other: Seq<char>|
            other != name ==> #[trigger] name_lookup(name_upsert(s, name, value), other)
                == name_lookup(s, other),
{
    let u = name_upsert(s, name, value);
    let i = name_index(s, name);
    if i >= 0 {
        assert(is_first_name(s, name, i));
        assert(is_first_name(u, name, i));
        lemma_name_index_found(u, name, i);
    } else {
        assert forall|j: int| 0 <= j < s.len() implies s[j].name != name by {
            if s[j].name == name {
                lemma_name_has_first(s, name, j);
            }
        }
        assert(is_first_name(u, name, s.len() as int));
        lemma_name_index_found(u, name, s.len() as int);
    }
    assert forall|other: Seq<char>| other != name implies #[trigger] name_lookup(u, other)
        == name_lookup(s, other) by {
        let k = name_index(s, other);
        if k >= 0 {
            assert(is_first_name(s, other, k));
            assert(is_first_name(u, other, k));
            lemma_name_index_found(u, other, k);
        } else {
            assert forall|j: int| 0 <= j < u.len() implies u[j].name != other by {
                if j < s.len() && s[j].name == other {
                    lemma_name_has_first(s, other, j);
                }
            }
            lemma_name_index_absent(u, other);
        }
    }
}

} // verus!

verus! {

/// The first position from `k` on whose name does not sort before `name`.
pub proof fn first_not_before<T>(s: Seq<NamedView<T>>, name: Seq<char>, k: int) -> (p: int)
    requires
        0 <= k <= s.len(),
        forall|j: int| 0 <= j < k ==> name_lt(s[j].name, name),
    ensures
        is_insert_pos(s, name, p),
    decreases s.len() - k,
{
    if k == s.len() || !name_lt(s[k].name, name) {
        k
    } else {
        first_not_before(s, name, k + 1)
    }
}

/// After refiling `name` in name order, it holds `value` and every other
/// name holds what it held.
pub proof fn lemma_name_sorted_upsert_lookup<T>(s: Seq<NamedView<T>>, name: Seq<char>, value: T)
    ensures
        name_lookup(name_sorted_upsert(s, name, value), name) == Some(value),
        forall|other: Seq<char>|
            other != name ==> #[trigger] name_lookup(name_sorted_upsert(s, name, value), other)
                == name_lookup(s, other),
{
    let i = name_index(s, name);
    if i >= 0 {
        assert(name_sorted_upsert(s, name, value) == name_upsert(s, name, value));
        lemma_name_upsert_lookup(s, name, value);
    } else {
        let p = insert_pos(s, name);
        let e = NamedView { name, value };
        let u = s.insert(p, e);
        let q = first_not_before(s, name, 0);
        lemma_insert_pos(s, name, q);
        assert forall|j: int| 0 <= j < s.len() implies s[j].name != name by {
            if s[j].name == name {
                lemma_name_has_first(s, name, j);
            }
        }
        assert(is_first_name(u, name, p));
        lemma_name_index_found(u, name, p);
        assert forall|other: Seq<char>| other != name implies #[trigger] name_lookup(u, other)
            == name_lookup(s, other) by {
            let k = name_index(s, other);
            if k >= 0 {
                assert(is_first_name(s, other, k));
                if k < p {
                    assert(is_first_name(u, other, k));
                    lemma_name_index_found(u, other, k);
                } else {
                    assert(is_first_name(u, other, k + 1));
                    lemma_name_index_found(u, other, k + 1);
                }
            } else {
                assert forall|j: int| 0 <= j < u.len() implies u[j].name != other by {
                    if j < p && s[j].name == other {
                        lemma_name_has_first(s, other, j);
                    } else if j > p && s[j - 1].name == other {
                        lemma_name_has_first(s, other, j - 1);
                    }
                }
                lemma_name_index_absent(u, other);
            }
        }
    }
}

} // verus!

verus! {

/// Lists with the same names at the same places find and place names alike.
pub proof fn lemma_same_names<T, U>(s: Seq<NamedView<T>>, t: Seq<NamedView<U>>, name: Seq<char>)
    requires
        s.len() == t.len(),
        forall|i: int| 0 <= i < s.len() ==> s[i].name == t[i].name,
    ensures
        name_index(s, name) == name_index(t, name),
        insert_pos(s, name) == insert_pos(t, name),
{
    let i = name_index(s, name);
    if i >= 0 {
        assert(is_first_name(s, name, i));
        assert(is_first_name(t, name, i));
        lemma_name_index_found(t, name, i);
    } else {
        assert forall|j: int| 0 <= j < t.len() implies t[j].name != name by {
            if t[j].name == name {
                assert(s[j].name == name);
                lemma_name_has_first(s, name, j);
            }
        }
        lemma_name_index_absent(t, name);
    }
    let p = first_not_before(s, name, 0);
    lemma_insert_pos(s, name, p);
    assert(is_insert_pos(t, name, p));
    lemma_insert_pos(t, name, p);
}

} // verus!

verus! {

pub proof fn lemma_bytes_lt_irreflexive(a: Seq<u8>)
    ensures
        !bytes_lt(a, a),
    decreases a.len(),
{
    if a.len() > 0 {
        lemma_bytes_lt_irreflexive(a.drop_first());
    }
}

pub proof fn lemma_bytes_lt_transitive(a: Seq<u8>, b: Seq<u8>, c: Seq<u8>)
    requires
        bytes_lt(a, b),
        bytes_lt(b, c),
    ensures
        bytes_lt(a, c),
    decreases a.len(),
{
    if a.len() > 0 && b.len() > 0 && c.len() > 0 && a[0] == b[0] && b[0] == c[0] {
        lemma_bytes_lt_transitive(a.drop_first(), b.drop_first(), c.drop_first());
    }
}

pub proof fn lemma_bytes_lt_total(a: Seq<u8>, b: Seq<u8>)
    requires
        a != b,
    ensures
        bytes_lt(a, b) || bytes_lt(b, a),
    decreases a.len(),
{
    if a.len() > 0 && b.len() > 0 && a[0] == b[0] {
        if a.drop_first() == b.drop_first() {
            assert(a =~= seq![a[0]] + a.drop_first());
            assert(b =~= seq![b[0]] + b.drop_first());
        }
        lemma_bytes_lt_total(a.drop_first(), b.drop_first());
    } else if a.len() == 0 && b.len() == 0 {
        assert(a =~= b);
    }
}

pub proof fn lemma_name_lt_irreflexive(a: Seq<char>)
    ensures
        !name_lt(a, a),
{
    lemma_bytes_lt_irreflexive(encode_utf8(a));
}

pub proof fn lemma_name_lt_transitive(a: Seq<char>, b: Seq<char>, c: Seq<char>)
    requires
        name_lt(a, b),
        name_lt(b, c),
    ensures
        name_lt(a, c),
{
    lemma_bytes_lt_transitive(encode_utf8(a), encode_utf8(b), encode_utf8(c));
}

pub proof fn lemma_name_lt_total(a: Seq<char>, b: Seq<char>)
    requires
        a != b,
    ensures
        name_lt(a, b) || name_lt(b, a),
{
    vstd::utf8::encode_utf8_decode_utf8(a);
    vstd::utf8::encode_utf8_decode_utf8(b);
    lemma_bytes_lt_total(encode_utf8(a), encode_utf8(b));
}

/// Names strictly in order: each sorts before every later one.
pub open spec fn names_sorted<T>(s: Seq<NamedView<T>>) -> bool {
    forall|i: int, j: int| 0 <= i < j < s.len() ==> name_lt(#[trigger] s[i].name, #[trigger] s[j].name)
}

/// Inserting an absent name at its place keeps names in order.
pub proof fn lemma_sorted_insert<T>(s: Seq<NamedView<T>>, name: Seq<char>, value: T)
    requires
        names_sorted(s),
        name_index(s, name) < 0,
    ensures
        names_sorted(s.insert(insert_pos(s, name), NamedView { name, value })),
{
    let p = first_not_before(s, name, 0);
    lemma_insert_pos(s, name, p);
    let u = s.insert(p, NamedView { name, value });
    assert forall|j: int| 0 <= j < s.len() implies s[j].name != name by {
        if s[j].name == name {
            lemma_name_has_first(s, name, j);
        }
    }
    if p < s.len() {
        assert(!name_lt(s[p].name, name));
        lemma_name_lt_total(s[p].name, name);
    }
    assert forall|i: int, j: int| 0 <= i < j < u.len() implies name_lt(
        #[trigger] u[i].name,
        #[trigger] u[j].name,
    ) by {
        if j < p {
        } else if j == p {
        } else if i < p {
            assert(u[j] == s[j - 1]);
            if j - 1 > p {
                assert(name_lt(s[p].name, s[j - 1].name));
                lemma_name_lt_transitive(name, s[p].name, s[j - 1].name);
            }
            lemma_name_lt_transitive(s[i].name, name, s[j - 1].name);
        } else if i == p {
            assert(u[j] == s[j - 1]);
            if j - 1 > p {
                assert(name_lt(s[p].name, s[j - 1].name));
                lemma_name_lt_transitive(name, s[p].name, s[j - 1].name);
            }
        } else {
            assert(u[i] == s[i - 1]);
            assert(u[j] == s[j - 1]);
        }
    }
}

} // verus!
