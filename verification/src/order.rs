use vstd::prelude::*;
use crate::keyed::{key_lookup, key_upsert, key_position, first_key, has_key, lemma_key_position};
use crate::text::chars_of;

verus! {

/// Lexicographic order of texts by code point, as `String` orders them.
pub open spec fn text_less(a: Seq<char>, b: Seq<char>) -> bool
    decreases a.len(),
{
    if a.len() == 0 {
        b.len() > 0
    } else if b.len() == 0 {
        false
    } else if a[0] != b[0] {
        (a[0] as int) < (b[0] as int)
    } else {
        text_less(a.drop_first(), b.drop_first())
    }
}

pub proof fn lemma_text_less_irreflexive(a: Seq<char>)
    ensures
        !text_less(a, a),
    decreases a.len(),
{
    if a.len() > 0 {
        lemma_text_less_irreflexive(a.drop_first());
    }
}

pub proof fn lemma_text_less_total(a: Seq<char>, b: Seq<char>)
    ensures
        a != b ==> text_less(a, b) || text_less(b, a),
        !(text_less(a, b) && text_less(b, a)),
    decreases a.len(),
{
    if a.len() > 0 && b.len() > 0 {
        if a[0] == b[0] {
            lemma_text_less_total(a.drop_first(), b.drop_first());
            if a != b {
                assert(a.drop_first() != b.drop_first()) by {
                    if a.drop_first() == b.drop_first() {
                        assert(a.len() == b.len());
                        assert forall|i: int| 0 <= i < a.len() implies a[i] == b[i] by {
                            if i > 0 {
                                assert(a[i] == a.drop_first()[i - 1]);
                                assert(b[i] == b.drop_first()[i - 1]);
                            }
                        }
                        assert(a =~= b);
                    }
                }
            }
        }
    } else if a.len() == 0 && b.len() == 0 {
        assert(a =~= b);
    }
}

pub proof fn lemma_text_less_transitive(a: Seq<char>, b: Seq<char>, c: Seq<char>)
    requires
        text_less(a, b),
        text_less(b, c),
    ensures
        text_less(a, c),
    decreases a.len(),
{
    if a.len() > 0 && b.len() > 0 && c.len() > 0 {
        if a[0] == b[0] && b[0] == c[0] {
            lemma_text_less_transitive(a.drop_first(), b.drop_first(), c.drop_first());
        }
    }
}

/// Compares two texts in lexicographic order.
pub fn text_less_exec(a: &str, b: &str) -> (r: bool)
    ensures
        r == text_less(a@, b@),
{
    let x = chars_of(a);
    let y = chars_of(b);
    let mut i: usize = 0;
    assert(x@.subrange(0, x@.len() as int) =~= x@);
    assert(y@.subrange(0, y@.len() as int) =~= y@);
    while i < x.len() && i < y.len()
        invariant
            i <= x@.len(),
            i <= y@.len(),
            text_less(a@, b@) == text_less(x@.subrange(i as int, x@.len() as int), y@.subrange(i as int, y@.len() as int)),
            x@ == a@,
            y@ == b@,
        decreases x@.len() - i,
    {
        let ghost sa = x@.subrange(i as int, x@.len() as int);
        let ghost sb = y@.subrange(i as int, y@.len() as int);
        assert(sa[0] == x@[i as int]);
        assert(sb[0] == y@[i as int]);
        if x[i] != y[i] {
            return x[i] < y[i];
        }
        assert(sa.drop_first() =~= x@.subrange(i + 1 as int, x@.len() as int));
        assert(sb.drop_first() =~= y@.subrange(i + 1 as int, y@.len() as int));
        i = i + 1;
    }
    x.len() - i == 0 && y.len() - i > 0
}

/// Keys of `g` are in strictly increasing text order.
pub open spec fn groups_sorted<T>(g: Seq<(Seq<char>, Seq<T>)>) -> bool {
    forall|i: int, j: int| 0 <= i < j < g.len() ==> text_less(#[trigger] g[i].0, #[trigger] g[j].0)
}

pub open spec fn groups_view<T>(g: Seq<(String, Vec<T>)>) -> Seq<(Seq<char>, Seq<T>)> {
    g.map_values(|p: (String, Vec<T>)| (p.0@, p.1@))
}

/// The group of `key` after `item` is added to it.
pub open spec fn grown_group<T>(g: Seq<(Seq<char>, Seq<T>)>, key: Seq<char>, item: T) -> Seq<T> {
    match key_lookup(g, key) {
        Some(s) => s.push(item),
        None => seq![item],
    }
}

/// Adds `item` to the group of `key`, keeping the groups sorted by key.
pub fn group_insert<T: Copy>(groups: &mut Vec<(String, Vec<T>)>, key: &str, item: T)
    requires
        groups_sorted(groups_view(old(groups)@)),
    ensures
        groups_sorted(groups_view(final(groups)@)),
        key_lookup(groups_view(final(groups)@), key@) == Some(grown_group(groups_view(old(groups)@), key@, item)),
        forall|k: Seq<char>| k != key@ ==> #[trigger] key_lookup(groups_view(final(groups)@), k)
            == key_lookup(groups_view(old(groups)@), k),
{
    let ghost g = groups_view(groups@);
    proof {
        lemma_key_position(g, key@);
    }
    let mut p: usize = 0;
    while p < groups.len() && text_less_exec(groups[p].0.as_str(), key)
        invariant
            p <= groups@.len(),
            g == groups_view(groups@),
            groups@ == old(groups)@,
            forall|j: int| 0 <= j < p ==> text_less(#[trigger] g[j].0, key@),
        decreases groups@.len() - p,
    {
        p = p + 1;
    }
    // every key before `p` is below `key`, and `key` is not below the key at `p`
    proof {
        assert forall|j: int| 0 <= j < p implies #[trigger] g[j].0 != key@ by {
            lemma_text_less_irreflexive(key@);
        }
    }
    if p < groups.len() && crate::text::same_text(groups[p].0.as_str(), key) {
        proof {
            assert(first_key(g, key@, p as int));
        }
        let (k, mut items) = groups.remove(p);
        items.push(item);
        groups.insert(p, (k, items));
        proof {
            let g2 = groups_view(groups@);
            assert(g2 =~= g.update(p as int, (key@, g[p as int].1.push(item))));
            assert(first_key(g2, key@, p as int));
            lemma_key_position(g2, key@);
            assert forall|k: Seq<char>| k != key@ implies #[trigger] key_lookup(g2, k) == key_lookup(g, k) by {
                lemma_key_position(g, k);
                lemma_key_position(g2, k);
                if has_key(g, k) {
                    assert(first_key(g2, k, key_position(g, k)));
                } else if has_key(g2, k) {
                    let i = choose|i: int| 0 <= i < g2.len() && g2[i].0 == k;
                    assert(g[i].0 == k);
                }
            }
        }
    } else {
        let mut items: Vec<T> = Vec::new();
        items.push(item);
        groups.insert(p, (key.to_owned(), items));
        proof {
            let g2 = groups_view(groups@);
            assert(items@ =~= seq![item]);
            assert(g2 =~= g.insert(p as int, (key@, seq![item])));
            // `key` is below every key from `p` on
            assert forall|j: int| p <= j < g.len() implies text_less(key@, #[trigger] g[j].0) by {
                lemma_text_less_total(key@, g[p as int].0);
                if j > p {
                    lemma_text_less_transitive(key@, g[p as int].0, g[j].0);
                }
            }
            assert(!has_key(g, key@)) by {
                if has_key(g, key@) {
                    let i = choose|i: int| 0 <= i < g.len() && g[i].0 == key@;
                    if i >= p {
                        lemma_text_less_irreflexive(key@);
                    }
                }
            }
            assert(first_key(g2, key@, p as int));
            lemma_key_position(g2, key@);
            assert forall|k: Seq<char>| k != key@ implies #[trigger] key_lookup(g2, k) == key_lookup(g, k) by {
                lemma_key_position(g, k);
                lemma_key_position(g2, k);
                if has_key(g, k) {
                    let q = key_position(g, k);
                    if q < p {
                        assert(first_key(g2, k, q));
                    } else {
                        assert(first_key(g2, k, q + 1));
                    }
                } else if has_key(g2, k) {
                    let i = choose|i: int| 0 <= i < g2.len() && g2[i].0 == k;
                    if i < p {
                        assert(g[i].0 == k);
                    } else if i > p {
                        assert(g[i - 1].0 == k);
                    }
                }
            }
            assert forall|i: int, j: int| 0 <= i < j < g2.len() implies text_less(#[trigger] g2[i].0, #[trigger] g2[j].0) by {
                if j < p {
                } else if j == p {
                } else if i == p {
                } else if i < p {
                    lemma_text_less_transitive(g[i].0, key@, g[j - 1].0);
                } else {
                }
            }
        }
    }
}


/// The items among the first `n` whose symbol is `key`, in order.
pub open spec fn grouped<T>(items: Seq<T>, syms: Seq<Seq<char>>, key: Seq<char>, n: int) -> Seq<T>
    decreases n,
{
    if n <= 0 {
        Seq::empty()
    } else {
        let rest = grouped(items, syms, key, n - 1);
        if syms[n - 1] == key { rest.push(items[n - 1]) } else { rest }
    }
}

/// The group of `key` among the first `n` items: none when no item has that symbol.
pub open spec fn group_of<T>(items: Seq<T>, syms: Seq<Seq<char>>, key: Seq<char>, n: int) -> Option<Seq<T>> {
    if grouped(items, syms, key, n).len() > 0 { Some(grouped(items, syms, key, n)) } else { None }
}

pub open spec fn texts_view(v: Seq<String>) -> Seq<Seq<char>> {
    v.map_values(|s: String| s@)
}

/// Groups items by their symbols: one group per symbol, in symbol order, each
/// holding its items in their order.
pub fn group_all<T: Copy>(items: &Vec<T>, syms: &Vec<String>) -> (groups: Vec<(String, Vec<T>)>)
    requires
        items@.len() == syms@.len(),
    ensures
        groups_sorted(groups_view(groups@)),
        forall|k: Seq<char>| #[trigger] key_lookup(groups_view(groups@), k)
            == group_of(items@, texts_view(syms@), k, items@.len() as int),
{
    let ghost ss = texts_view(syms@);
    let mut groups: Vec<(String, Vec<T>)> = Vec::new();
    let mut i: usize = 0;
    proof {
        assert forall|k: Seq<char>| #[trigger] key_lookup(groups_view(groups@), k)
            == group_of(items@, ss, k, 0) by {
            assert(!has_key(groups_view(groups@), k));
        }
    }
    while i < items.len()
        invariant
            i <= items@.len(),
            items@.len() == syms@.len(),
            ss == texts_view(syms@),
            groups_sorted(groups_view(groups@)),
            forall|k: Seq<char>| #[trigger] key_lookup(groups_view(groups@), k)
                == group_of(items@, ss, k, i as int),
        decreases items@.len() - i,
    {
        let ghost before = groups_view(groups@);
        group_insert(&mut groups, syms[i].as_str(), items[i]);
        proof {
            assert forall|k: Seq<char>| #[trigger] key_lookup(groups_view(groups@), k)
                == group_of(items@, ss, k, i + 1) by {
                assert(key_lookup(before, k) == group_of(items@, ss, k, i as int));
                if k == ss[i as int] {
                    assert(grouped(items@, ss, k, i + 1) == grouped(items@, ss, k, i as int).push(items@[i as int]));
                    if grouped(items@, ss, k, i as int).len() == 0 {
                        assert(grouped(items@, ss, k, i + 1) =~= seq![items@[i as int]]);
                    }
                } else {
                    assert(grouped(items@, ss, k, i + 1) == grouped(items@, ss, k, i as int));
                }
            }
        }
        i = i + 1;
    }
    groups
}

} // verus!
