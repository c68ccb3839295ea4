//! Why disambiguation works: within a group of colliding names whose
//! parent directories differ, every member gets its own suffix.

use vstd::prelude::*;
use crate::path::{components, leading_component, parent_components, is_kept_piece};
use crate::pretty::{
    base_name, worktree_of,
    annotation, display_name, group_max_len, member_max_len, path_suffix, project_parents,
    same_name_mask, short_name, suffix_search, tail_text, unique_at, unique_suffix, Project,
    collides,
};
use crate::text::{has_char, join, split_on, starts_with};

verus! {

broadcast use vstd::seq_lib::group_seq_properties;

/// A component list as paths produce them: every component is non-empty,
/// and only the first may hold `/`, in which case it is exactly `/`.
pub open spec fn well_formed_components(c: Seq<Seq<char>>) -> bool {
    forall|k: int|
        0 <= k < c.len() ==> {
            &&& (#[trigger] c[k]).len() > 0
            &&& has_char(c[k], '/') ==> k == 0 && c[k] == seq!['/']
        }
}

/// No piece of a split holds the separator.
pub proof fn lemma_split_pieces_lack_sep(s: Seq<char>, sep: char)
    ensures
        forall|k: int|
            0 <= k < split_on(s, sep).len() ==> !has_char(#[trigger] split_on(s, sep)[k], sep),
        split_on(s, sep).len() >= 1,
    decreases s.len(),
{
    if s.len() > 0 {
        lemma_split_pieces_lack_sep(s.drop_last(), sep);
        let rest = split_on(s.drop_last(), sep);
        if s.last() != sep {
            let last = rest.last().push(s.last());
            assert forall|i: int| 0 <= i < last.len() implies last[i] != sep by {
                if i < last.len() - 1 {
                    assert(last[i] == rest.last()[i]);
                    assert(!has_char(rest[rest.len() - 1], sep));
                }
            }
            assert forall|k: int| 0 <= k < split_on(s, sep).len() implies !has_char(
                #[trigger] split_on(s, sep)[k],
                sep,
            ) by {
                if k == rest.len() - 1 {
                    assert(split_on(s, sep)[k] == last);
                } else {
                    assert(split_on(s, sep)[k] == rest[k]);
                }
            }
        }
    }
}

/// The components of any path are well formed.
pub proof fn lemma_components_well_formed(s: Seq<char>)
    ensures
        well_formed_components(components(s)),
{
    broadcast use vstd::seq_lib::group_filter_ensures;

    let ps = split_on(s, '/');
    let pred = |p: Seq<char>| is_kept_piece(p);
    let kept = ps.filter(pred);
    let lead = leading_component(s);
    lemma_split_pieces_lack_sep(s, '/');
    let c = components(s);
    assert(c == lead + kept);
    assert forall|k: int| 0 <= k < c.len() implies {
        &&& (#[trigger] c[k]).len() > 0
        &&& has_char(c[k], '/') ==> k == 0 && c[k] == seq!['/']
    } by {
        if k < lead.len() {
            assert(k == 0);
            if c[k] == seq!['.'] {
                assert(!has_char(c[k], '/')) by {
                    if has_char(c[k], '/') {
                        let w = choose|w: int| 0 <= w < c[k].len() && c[k][w] == '/';
                        assert(c[k][w] == '.');
                    }
                }
            }
        } else {
            let x = kept[k - lead.len()];
            assert(c[k] == x);
            assert(pred(x));
            assert(kept.contains(x));
            ps.lemma_filter_contains_rev(pred, x);
            let w = choose|w: int| 0 <= w < ps.len() && ps[w] == x;
            assert(!has_char(ps[w], '/'));
        }
    }
}

/// The parent components of any path are well formed.
pub proof fn lemma_parent_components_well_formed(s: Seq<char>)
    ensures
        well_formed_components(parent_components(s)),
{
    lemma_components_well_formed(s);
    let c = components(s);
    let p = parent_components(s);
    assert forall|k: int| 0 <= k < p.len() implies {
        &&& (#[trigger] p[k]).len() > 0
        &&& has_char(p[k], '/') ==> k == 0 && p[k] == seq!['/']
    } by {
        assert(p[k] == c[k]);
    }
}

proof fn lemma_tail_well_formed(p: Seq<Seq<char>>, start: int)
    requires
        well_formed_components(p),
        0 <= start <= p.len(),
    ensures
        well_formed_components(p.subrange(start, p.len() as int)),
{
    let t = p.subrange(start, p.len() as int);
    assert forall|k: int| 0 <= k < t.len() implies {
        &&& (#[trigger] t[k]).len() > 0
        &&& has_char(t[k], '/') ==> k == 0 && t[k] == seq!['/']
    } by {
        assert(t[k] == p[start + k]);
    }
}

proof fn lemma_join_len(t: Seq<Seq<char>>)
    requires
        well_formed_components(t),
    ensures
        t.len() == 0 <==> join(t, seq!['/']).len() == 0,
        t.len() >= 2 ==> join(t, seq!['/']).len() >= 2,
    decreases t.len(),
{
    if t.len() >= 1 {
        assert(t[0].len() > 0);
    }
    if t.len() >= 2 {
        assert(t[t.len() - 1].len() > 0);
    }
}

/// Where `c` occurs once after its last occurrence, the split around it
/// is determined.
proof fn lemma_split_at_last(a1: Seq<char>, b1: Seq<char>, a2: Seq<char>, b2: Seq<char>, c: char)
    requires
        a1 + seq![c] + b1 == a2 + seq![c] + b2,
        !has_char(b1, c),
        !has_char(b2, c),
    ensures
        a1 == a2,
        b1 == b2,
{
    let s = a1 + seq![c] + b1;
    let t1 = a1 + seq![c];
    let t2 = a2 + seq![c];
    assert(s == t2 + b2);
    assert(s.len() == a1.len() + 1 + b1.len());
    assert(s.len() == a2.len() + 1 + b2.len());
    if b1.len() < b2.len() {
        let w = a1.len() - t2.len();
        assert(0 <= w < b2.len());
        assert(s[a1.len() as int] == t1[a1.len() as int]);
        assert(s[a1.len() as int] == c);
        assert((t2 + b2)[a1.len() as int] == b2[w]);
        assert(b2[w] == c);
        assert(has_char(b2, c));
    } else if b2.len() < b1.len() {
        let w = a2.len() - t1.len();
        assert(0 <= w < b1.len());
        assert((t2 + b2)[a2.len() as int] == t2[a2.len() as int]);
        assert(s[a2.len() as int] == c);
        assert((t1 + b1)[a2.len() as int] == b1[w]);
        assert(b1[w] == c);
        assert(has_char(b1, c));
    }
    assert(a1 =~= s.subrange(0, a1.len() as int));
    assert(a2 =~= (a2 + seq![c] + b2).subrange(0, a2.len() as int));
    assert(b1 =~= s.subrange(a1.len() as int + 1, s.len() as int));
    assert(b2 =~= (a2 + seq![c] + b2).subrange(a2.len() as int + 1, s.len() as int));
}

/// Joining well-formed component lists with `/` loses nothing.
pub proof fn lemma_join_injective(t1: Seq<Seq<char>>, t2: Seq<Seq<char>>)
    requires
        well_formed_components(t1),
        well_formed_components(t2),
        join(t1, seq!['/']) == join(t2, seq!['/']),
    ensures
        t1 == t2,
    decreases t1.len() + t2.len(),
{
    let sl = seq!['/'];
    lemma_join_len(t1);
    lemma_join_len(t2);
    if t1.len() >= 2 && t2.len() >= 2 {
        let l1 = t1.last();
        let l2 = t2.last();
        assert(!has_char(l1, '/'));
        assert(!has_char(l2, '/'));
        assert(join(t1, sl) == join(t1.drop_last(), sl) + seq!['/'] + l1);
        assert(join(t2, sl) == join(t2.drop_last(), sl) + seq!['/'] + l2);
        lemma_split_at_last(join(t1.drop_last(), sl), l1, join(t2.drop_last(), sl), l2, '/');
        lemma_tail_well_formed(t1, 0);
        assert forall|k: int| 0 <= k < t1.drop_last().len() implies {
            &&& (#[trigger] t1.drop_last()[k]).len() > 0
            &&& has_char(t1.drop_last()[k], '/') ==> k == 0 && t1.drop_last()[k] == seq!['/']
        } by {
            assert(t1.drop_last()[k] == t1[k]);
        }
        assert forall|k: int| 0 <= k < t2.drop_last().len() implies {
            &&& (#[trigger] t2.drop_last()[k]).len() > 0
            &&& has_char(t2.drop_last()[k], '/') ==> k == 0 && t2.drop_last()[k] == seq!['/']
        } by {
            assert(t2.drop_last()[k] == t2[k]);
        }
        lemma_join_injective(t1.drop_last(), t2.drop_last());
        assert(t1 =~= t1.drop_last().push(l1));
        assert(t2 =~= t2.drop_last().push(l2));
    } else if t1.len() == 1 && t2.len() >= 2 {
        lemma_one_vs_many(t1, t2);
    } else if t2.len() == 1 && t1.len() >= 2 {
        lemma_one_vs_many(t2, t1);
    } else if t1.len() == 1 && t2.len() == 1 {
        assert(t1 =~= t2);
    } else {
        assert(t1.len() == 0 && t2.len() == 0);
        assert(t1 =~= t2);
    }
}

proof fn lemma_one_vs_many(t1: Seq<Seq<char>>, t2: Seq<Seq<char>>)
    requires
        well_formed_components(t1),
        well_formed_components(t2),
        t1.len() == 1,
        t2.len() >= 2,
    ensures
        join(t1, seq!['/']) != join(t2, seq!['/']),
{
    let sl = seq!['/'];
    let a = join(t2.drop_last(), sl);
    let l = t2.last();
    assert(join(t2, sl) == a + seq!['/'] + l);
    assert(l.len() > 0);
    if join(t1, sl) == join(t2, sl) {
        let j = join(t2, sl);
        assert(j[a.len() as int] == '/');
        assert(j == t1[0]);
        assert(has_char(t1[0], '/'));
        assert(t1[0] == seq!['/']);
        assert(j.len() >= 2);
        assert(false);
    }
}

proof fn lemma_member_max_len_bound(ps: Seq<Seq<Seq<char>>>, m: Seq<bool>, n: int, a: int)
    requires
        0 <= a < n <= ps.len(),
        m.len() == ps.len(),
        m[a],
    ensures
        ps[a].len() <= member_max_len(ps, m, n),
    decreases n,
{
    if a < n - 1 {
        lemma_member_max_len_bound(ps, m, n - 1, a);
    }
}

proof fn lemma_tail_full(p: Seq<Seq<char>>, d: int)
    requires
        p.len() <= d,
    ensures
        tail_text(p, d) == join(p, seq!['/']),
{
    assert(p.subrange(0, p.len() as int) =~= p);
}

/// The component list that `tail_text(p, d)` joins.
spec fn tail_seq(p: Seq<Seq<char>>, d: int) -> Seq<Seq<char>> {
    let start = if p.len() >= d { p.len() - d } else { 0 };
    p.subrange(start, p.len() as int)
}

proof fn lemma_search_finds(ps: Seq<Seq<Seq<char>>>, m: Seq<bool>, k: int, d: int)
    requires
        1 <= d <= group_max_len(ps, m),
        unique_at(ps, m, k, group_max_len(ps, m) as int),
    ensures
        exists|e: int|
            d <= e <= group_max_len(ps, m) && unique_at(ps, m, k, e) && suffix_search(ps, m, k, d)
                == tail_text(ps[k], e),
    decreases group_max_len(ps, m) - d,
{
    if unique_at(ps, m, k, d) {
        assert(suffix_search(ps, m, k, d) == tail_text(ps[k], d));
    } else {
        lemma_search_finds(ps, m, k, d + 1);
        let e = choose|e: int|
            d + 1 <= e <= group_max_len(ps, m) && unique_at(ps, m, k, e) && suffix_search(
                ps,
                m,
                k,
                d + 1,
            ) == tail_text(ps[k], e);
        assert(suffix_search(ps, m, k, d) == tail_text(ps[k], e));
    }
}

proof fn lemma_unique_at_top(ps: Seq<Seq<Seq<char>>>, m: Seq<bool>, i: int)
    requires
        m.len() == ps.len(),
        0 <= i < ps.len(),
        m[i],
        forall|a: int| 0 <= a < ps.len() && m[a] ==> well_formed_components(ps[a]),
        forall|a: int, b: int|
            0 <= a < ps.len() && 0 <= b < ps.len() && a != b && m[a] && m[b] ==> ps[a] != ps[b],
    ensures
        unique_at(ps, m, i, group_max_len(ps, m) as int),
{
    let top = group_max_len(ps, m) as int;
    assert forall|j: int| 0 <= j < ps.len() && j != i && m[j] implies tail_text(
        #[trigger] ps[j],
        top,
    ) != tail_text(ps[i], top) by {
        lemma_member_max_len_bound(ps, m, ps.len() as int, i);
        lemma_member_max_len_bound(ps, m, ps.len() as int, j);
        lemma_tail_full(ps[i], top);
        lemma_tail_full(ps[j], top);
        if join(ps[j], seq!['/']) == join(ps[i], seq!['/']) {
            lemma_join_injective(ps[j], ps[i]);
        }
    }
}

/// One member's found tail cannot be another's when it was found no
/// deeper.
proof fn lemma_found_tails_differ(
    ps: Seq<Seq<Seq<char>>>,
    m: Seq<bool>,
    i: int,
    k: int,
    ei: int,
    ek: int,
)
    requires
        m.len() == ps.len(),
        0 <= i < ps.len(),
        0 <= k < ps.len(),
        i != k,
        m[i],
        m[k],
        1 <= ei <= ek,
        unique_at(ps, m, i, ei),
        well_formed_components(ps[i]),
        well_formed_components(ps[k]),
        ps[i] != ps[k],
    ensures
        tail_text(ps[i], ei) != tail_text(ps[k], ek),
{
    let ti = tail_seq(ps[i], ei);
    let tk = tail_seq(ps[k], ek);
    let li = ps[i].len() as int;
    let lk = ps[k].len() as int;
    if tail_text(ps[i], ei) == tail_text(ps[k], ek) {
        lemma_tail_well_formed(ps[i], if li >= ei { li - ei } else { 0 });
        lemma_tail_well_formed(ps[k], if lk >= ek { lk - ek } else { 0 });
        lemma_join_injective(ti, tk);
        assert(ti == tk);
        if li >= ei {
            assert(ti.len() == ei);
            let tk2 = tail_seq(ps[k], ei);
            if lk >= ek {
                assert(tk.len() == ek);
                assert(ek == ei);
                assert(tk2 =~= tk);
            } else {
                assert(tk.len() == lk);
                assert(lk == ei);
                assert(tk2 =~= tk);
            }
            assert(tail_text(ps[k], ei) == tail_text(ps[i], ei));
            assert(false);
        } else {
            assert(ti =~= ps[i]);
            assert(ti.len() == li);
            if lk >= ek {
                assert(tk.len() == ek);
                assert(false);
            } else {
                assert(tk =~= ps[k]);
                assert(false);
            }
        }
    }
}

/// Within a group whose members' parent directories are pairwise
/// different, no two members get the same suffix.
pub proof fn lemma_unique_suffixes_distinct(ps: Seq<Seq<Seq<char>>>, m: Seq<bool>, i: int, k: int)
    requires
        m.len() == ps.len(),
        0 <= i < ps.len(),
        0 <= k < ps.len(),
        i != k,
        m[i],
        m[k],
        forall|a: int| 0 <= a < ps.len() && m[a] ==> well_formed_components(ps[a]),
        forall|a: int, b: int|
            0 <= a < ps.len() && 0 <= b < ps.len() && a != b && m[a] && m[b] ==> ps[a] != ps[b],
    ensures
        unique_suffix(ps, m, i) != unique_suffix(ps, m, k),
{
    let top = group_max_len(ps, m) as int;
    lemma_member_max_len_bound(ps, m, ps.len() as int, i);
    lemma_member_max_len_bound(ps, m, ps.len() as int, k);
    if top == 0 {
        assert(ps[i] =~= ps[k]);
        assert(false);
    }
    lemma_unique_at_top(ps, m, i);
    lemma_unique_at_top(ps, m, k);
    lemma_search_finds(ps, m, i, 1);
    lemma_search_finds(ps, m, k, 1);
    let ei = choose|e: int|
        1 <= e <= top && unique_at(ps, m, i, e) && suffix_search(ps, m, i, 1) == tail_text(
            ps[i],
            e,
        );
    let ek = choose|e: int|
        1 <= e <= top && unique_at(ps, m, k, e) && suffix_search(ps, m, k, 1) == tail_text(
            ps[k],
            e,
        );
    if ei <= ek {
        lemma_found_tails_differ(ps, m, i, k, ei, ek);
    } else {
        lemma_found_tails_differ(ps, m, k, i, ek, ei);
    }
}

proof fn lemma_parents_well_formed(ps: Seq<Project>, m: Seq<bool>)
    requires
        m.len() == ps.len(),
    ensures
        forall|a: int|
            0 <= a < ps.len() && m[a] ==> well_formed_components(
                #[trigger] project_parents(ps)[a],
            ),
{
    assert forall|a: int| 0 <= a < ps.len() && m[a] implies well_formed_components(
        #[trigger] project_parents(ps)[a],
    ) by {
        lemma_parent_components_well_formed(ps[a].path@);
    }
}

/// Projects whose short names collide and whose annotations agree get
/// different display names, as long as the parent directories within
/// their group of colliding names are pairwise different.
#[verifier::spinoff_prover]
pub proof fn lemma_colliding_projects_told_apart(ps: Seq<Project>, i: int, k: int)
    requires
        0 <= i < ps.len(),
        0 <= k < ps.len(),
        i != k,
        short_name(ps[i]) == short_name(ps[k]),
        annotation(ps[i]) == annotation(ps[k]),
        forall|a: int, b: int|
            0 <= a < ps.len() && 0 <= b < ps.len() && a != b && #[trigger] same_name_mask(ps, i)[a]
                && #[trigger] same_name_mask(ps, i)[b] ==> parent_components(ps[a].path@)
                != parent_components(ps[b].path@),
    ensures
        display_name(ps, i) != display_name(ps, k),
{
    let pp = project_parents(ps);
    let m = same_name_mask(ps, i);
    assert(same_name_mask(ps, k) =~= m);
    assert(collides(ps, i)) by {
        assert(short_name(ps[k]) == short_name(ps[i]));
    }
    assert(collides(ps, k)) by {
        assert(short_name(ps[i]) == short_name(ps[k]));
    }
    lemma_parents_well_formed(ps, m);
    assert forall|a: int, b: int|
        0 <= a < pp.len() && 0 <= b < pp.len() && a != b && m[a] && m[b] implies pp[a]
        != pp[b] by {
        assert(pp[a] == parent_components(ps[a].path@));
        assert(pp[b] == parent_components(ps[b].path@));
    }
    assert(m[i] && m[k]);
    lemma_unique_suffixes_distinct(pp, m, i, k);
    let ui = unique_suffix(pp, m, i);
    let uk = unique_suffix(pp, m, k);
    let head = short_name(ps[i]) + seq![' ', '('];
    let ann = annotation(ps[i]);
    assert(display_name(ps, i) == head + ui + seq![')'] + ann);
    assert(display_name(ps, k) == head + uk + seq![')'] + ann);
    lemma_middle_differs(head, ui, uk, seq![')'], ann);
}

proof fn lemma_middle_differs(
    head: Seq<char>,
    u: Seq<char>,
    v: Seq<char>,
    close: Seq<char>,
    tail: Seq<char>,
)
    requires
        u != v,
    ensures
        head + u + close + tail != head + v + close + tail,
{
    let x = head + u + close + tail;
    let y = head + v + close + tail;
    assert(x.len() == head.len() + u.len() + close.len() + tail.len());
    assert(y.len() == head.len() + v.len() + close.len() + tail.len());
    if x == y {
        assert(u.len() == v.len());
        assert(u =~= x.subrange(head.len() as int, head.len() + u.len() as int));
        assert(v =~= y.subrange(head.len() as int, head.len() + v.len() as int));
    }
}

proof fn lemma_member_max_len_attained(ps: Seq<Seq<Seq<char>>>, m: Seq<bool>, n: int)
    requires
        0 <= n <= ps.len(),
        m.len() == ps.len(),
    ensures
        member_max_len(ps, m, n) == 0 || exists|a: int|
            0 <= a < n && m[a] && (#[trigger] ps[a]).len() == member_max_len(ps, m, n),
    decreases n,
{
    if n > 0 {
        lemma_member_max_len_attained(ps, m, n - 1);
        if m[n - 1] && ps[n - 1].len() > member_max_len(ps, m, n - 1) {
            assert(ps[n - 1].len() == member_max_len(ps, m, n));
        }
    }
}

proof fn lemma_search_agrees(
    ps: Seq<Seq<Seq<char>>>,
    m: Seq<bool>,
    k: int,
    qs: Seq<Seq<Seq<char>>>,
    mq: Seq<bool>,
    kq: int,
    d: int,
)
    requires
        group_max_len(ps, m) == group_max_len(qs, mq),
        ps[k] == qs[kq],
        forall|e: int| #[trigger] unique_at(ps, m, k, e) == unique_at(qs, mq, kq, e),
    ensures
        suffix_search(ps, m, k, d) == suffix_search(qs, mq, kq, d),
    decreases group_max_len(ps, m) + 1 - d,
{
    if 1 <= d <= group_max_len(ps, m) {
        assert(unique_at(ps, m, k, d) == unique_at(qs, mq, kq, d));
        lemma_search_agrees(ps, m, k, qs, mq, kq, d + 1);
    }
}

/// Taking the members of a group out of the list, in any order, does not
/// change the suffix that a member gets.
proof fn lemma_suffix_of_picked_members(ps: Seq<Seq<Seq<char>>>, m: Seq<bool>, g: Seq<int>, pos: int)
    requires
        m.len() == ps.len(),
        forall|x: int| 0 <= x < g.len() ==> 0 <= #[trigger] g[x] < ps.len() && m[g[x]],
        forall|x: int, y: int| 0 <= x < g.len() && 0 <= y < g.len() && x != y ==> g[x] != g[y],
        forall|j: int| 0 <= j < ps.len() && m[j] ==> g.contains(j),
        0 <= pos < g.len(),
    ensures
        unique_suffix(ps, m, g[pos]) == unique_suffix(
            g.map_values(|j: int| ps[j]),
            Seq::new(g.len(), |x: int| true),
            pos,
        ),
{
    let qs = g.map_values(|j: int| ps[j]);
    let mq = Seq::new(g.len(), |x: int| true);
    let k = g[pos];
    let a = group_max_len(ps, m);
    let b = group_max_len(qs, mq);
    lemma_member_max_len_attained(ps, m, ps.len() as int);
    if a > 0 {
        let j = choose|j: int| 0 <= j < ps.len() && m[j] && (#[trigger] ps[j]).len() == a;
        assert(g.contains(j));
        let x = choose|x: int| 0 <= x < g.len() && g[x] == j;
        lemma_member_max_len_bound(qs, mq, g.len() as int, x);
    }
    lemma_member_max_len_attained(qs, mq, g.len() as int);
    if b > 0 {
        let x = choose|x: int| 0 <= x < g.len() && mq[x] && (#[trigger] qs[x]).len() == b;
        lemma_member_max_len_bound(ps, m, ps.len() as int, g[x]);
    }
    assert(a == b);
    assert forall|e: int| #[trigger] unique_at(ps, m, k, e) == unique_at(qs, mq, pos, e) by {
        if unique_at(ps, m, k, e) {
            assert forall|x: int| 0 <= x < qs.len() && x != pos && mq[x] implies tail_text(
                #[trigger] qs[x],
                e,
            ) != tail_text(qs[pos], e) by {
                assert(g[x] != k);
                assert(tail_text(ps[g[x]], e) != tail_text(ps[k], e));
            }
        }
        if unique_at(qs, mq, pos, e) {
            assert forall|j: int| 0 <= j < ps.len() && j != k && m[j] implies tail_text(
                #[trigger] ps[j],
                e,
            ) != tail_text(ps[k], e) by {
                assert(g.contains(j));
                let x = choose|x: int| 0 <= x < g.len() && g[x] == j;
                assert(x != pos);
                assert(tail_text(qs[x], e) != tail_text(qs[pos], e));
            }
        }
    }
    lemma_search_agrees(ps, m, k, qs, mq, pos, 1);
}

/// A project's display name is its short name; then, when some other
/// project has that short name, ` (<suffix>)` with the suffix that
/// `shortest_unique_suffixes` gives it among the paths of its collision
/// group `g` (each project of that short name, listed once, in any order);
/// then its worktree annotation.
pub proof fn lemma_display_name_from_group_suffixes(ps: Seq<Project>, i: int, g: Seq<int>, pos: int)
    requires
        0 <= i < ps.len(),
        forall|x: int|
            0 <= x < g.len() ==> 0 <= #[trigger] g[x] < ps.len() && short_name(ps[g[x]])
                == short_name(ps[i]),
        forall|x: int, y: int| 0 <= x < g.len() && 0 <= y < g.len() && x != y ==> g[x] != g[y],
        forall|j: int| 0 <= j < ps.len() && short_name(#[trigger] ps[j]) == short_name(ps[i]) ==> g.contains(j),
        0 <= pos < g.len(),
        g[pos] == i,
    ensures
        display_name(ps, i) == short_name(ps[i]) + (if g.len() > 1 {
            seq![' ', '('] + path_suffix(g.map_values(|j: int| ps[j].path@), pos) + seq![')']
        } else {
            Seq::empty()
        }) + annotation(ps[i]),
{
    let m = same_name_mask(ps, i);
    let pp = project_parents(ps);
    if collides(ps, i) {
        let j = choose|j: int| 0 <= j < ps.len() && j != i && short_name(#[trigger] ps[j]) == short_name(ps[i]);
        assert(g.contains(j));
        let x = choose|x: int| 0 <= x < g.len() && g[x] == j;
        assert(x != pos);
        assert(g.len() > 1);
        assert forall|j2: int| 0 <= j2 < pp.len() && m[j2] implies g.contains(j2) by {
            assert(short_name(ps[j2]) == short_name(ps[i]));
        }
        lemma_suffix_of_picked_members(pp, m, g, pos);
        let paths = g.map_values(|j: int| ps[j].path@);
        assert(g.map_values(|j: int| pp[j]) =~= Seq::new(
            paths.len(),
            |x: int| parent_components(paths[x]),
        ));
    } else if g.len() > 1 {
        let x = if pos == 0 { 1int } else { 0int };
        assert(g[x] != i);
        assert(short_name(ps[g[x]]) == short_name(ps[i]));
        assert(collides(ps, i));
    }
}


/// ` [worktree of `, the opening of a worktree's annotation.
pub open spec fn worktree_tag_open() -> Seq<char> {
    seq![' ', '[', 'w', 'o', 'r', 'k', 't', 'r', 'e', 'e', ' ', 'o', 'f', ' ']
}

/// Every project whose `.git` file names a main repository `m` has a
/// display name that ends in ` [worktree of m]`, whether or not its
/// directory carries the `m--` prefix. Every other project's display name
/// is its directory's base name, alone or followed by ` (<suffix>)`.
pub proof fn lemma_worktree_annotation(ps: Seq<Project>, i: int)
    requires
        0 <= i < ps.len(),
    ensures
        worktree_of(ps[i].git_file) matches Some(m) ==> {
            let tag = worktree_tag_open() + m + seq![']'];
            let d = display_name(ps, i);
            d.len() >= tag.len() && d.subrange(d.len() - tag.len(), d.len() as int) == tag
        },
        worktree_of(ps[i].git_file) is None ==> {
            let d = display_name(ps, i);
            let b = base_name(ps[i].path@);
            ||| d == b
            ||| (starts_with(d, b + seq![' ', '(']) && d.len() > 0 && d.last() == ')')
        },
{
    let d = display_name(ps, i);
    match worktree_of(ps[i].git_file) {
        Some(m) => {
            let tag = worktree_tag_open() + m + seq![']'];
            assert(annotation(ps[i]) =~= tag);
            let head = if collides(ps, i) {
                short_name(ps[i]) + seq![' ', '('] + unique_suffix(
                    project_parents(ps),
                    same_name_mask(ps, i),
                    i,
                ) + seq![')']
            } else {
                short_name(ps[i])
            };
            assert(d =~= head + tag);
            assert(d.subrange(d.len() - tag.len(), d.len() as int) =~= tag);
        },
        None => {
            let b = base_name(ps[i].path@);
            assert(annotation(ps[i]) =~= Seq::<char>::empty());
            if collides(ps, i) {
                let u = unique_suffix(project_parents(ps), same_name_mask(ps, i), i);
                assert(d =~= b + seq![' ', '('] + u + seq![')']);
                assert(d.subrange(0, b.len() as int + 2) =~= b + seq![' ', '(']);
            } else {
                assert(d =~= b);
            }
        },
    }
}

} // verus!
