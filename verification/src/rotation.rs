//! The rotation: the ordered, selected subset of layouts that Caps Lock
//! cycles through, together with the index of the active one.  Seeded once
//! at startup from the catalog and the requested country codes, then mutated
//! only by `advance`.

use vstd::prelude::*;
use crate::catalog::{
    find_by_codes_spec, find_layouts_by_codes, first_english, get_english_layout, LayoutInfo,
};

verus! {

/// Whether some entry of `s` carries the layout handle `hkl`.
pub open spec fn has_hkl(s: Seq<LayoutInfo>, hkl: usize) -> bool {
    exists|i: int| 0 <= i < s.len() && s[i].hkl == hkl
}

/// The selection a rotation is seeded with: the full catalog when no code is
/// requested, otherwise the layouts the codes select; a selection of at most
/// one layout gets the catalog's first English layout prepended, unless its
/// handle is already present, so that a single non-English layout still lets
/// the user reach English.
pub open spec fn initial_selected(catalog: Seq<LayoutInfo>, codes: Seq<Seq<char>>) -> Seq<
    LayoutInfo,
> {
    if codes.len() == 0 {
        catalog
    } else {
        let base = find_by_codes_spec(catalog, codes);
        if base.len() <= 1 {
            match first_english(catalog) {
                Some(e) => if has_hkl(base, e.hkl) {
                    base
                } else {
                    seq![e] + base
                },
                None => base,
            }
        } else {
            base
        }
    }
}

/// The rotation: the ordered selection of layouts and the index of the
/// active one.
pub struct RotationState {
    pub selected: Vec<LayoutInfo>,
    pub current_index: usize,
}

impl RotationState {
    /// The rotation's invariant: the index addresses a selected layout, or
    /// is zero while nothing is selected.
    pub open spec fn wf(&self) -> bool {
        if self.selected@.len() == 0 {
            self.current_index == 0
        } else {
            (self.current_index as int) < self.selected@.len()
        }
    }

    /// What one `advance` does: an empty rotation is left alone and yields
    /// nothing; a single layout is re-asserted without moving the index;
    /// otherwise the index moves one step round-robin and the newly active
    /// layout is yielded.
    pub open spec fn advance_spec(self) -> (RotationState, Option<LayoutInfo>) {
        let n = self.selected@.len() as int;
        if n == 0 {
            (self, None)
        } else if n == 1 {
            (self, Some(self.selected@[0]))
        } else {
            let ni = (self.current_index + 1) % n;
            (
                RotationState { selected: self.selected, current_index: ni as usize },
                Some(self.selected@[ni]),
            )
        }
    }

    /// Moves the rotation to the next layout and returns it; returns the
    /// single layout unchanged if only one is selected, and nothing if none
    /// is.
    pub fn advance(&mut self) -> (r: Option<LayoutInfo>)
        requires
            old(self).wf(),
        ensures
            final(self).wf(),
            *final(self) == old(self).advance_spec().0,
            r == old(self).advance_spec().1,
    {
        let n = self.selected.len();
        if n == 0 {
            return None;
        }
        if n == 1 {
            return Some((&self.selected[0]).clone());
        }
        self.current_index = (self.current_index + 1) % n;
        Some((&self.selected[self.current_index]).clone())
    }

    /// The active layout and its index, or nothing while the rotation is
    /// empty.  Read-only.
    pub fn current(&self) -> (r: Option<(usize, LayoutInfo)>)
        requires
            self.wf(),
        ensures
            self.selected@.len() == 0 ==> r is None,
            self.selected@.len() > 0 ==> r == Some(
                (self.current_index, self.selected@[self.current_index as int]),
            ),
    {
        if self.selected.len() == 0 {
            return None;
        }
        Some((self.current_index, (&self.selected[self.current_index]).clone()))
    }
}

/// The index of the first entry of `v` carrying `hkl`, if any.
fn find_hkl_position(v: &Vec<LayoutInfo>, hkl: usize) -> (r: Option<usize>)
    ensures
        match r {
            Some(j) => {
                &&& (j as int) < v@.len()
                &&& v@[j as int].hkl == hkl
                &&& forall|k: int| 0 <= k < j ==> v@[k].hkl != hkl
                &&& has_hkl(v@, hkl)
            },
            None => !has_hkl(v@, hkl),
        },
{
    let n = v.len();
    let mut j: usize = 0;
    while j < n
        invariant
            n == v@.len(),
            0 <= j <= n,
            forall|k: int| 0 <= k < j ==> v@[k].hkl != hkl,
        decreases n - j,
    {
        if v[j].hkl == hkl {
            return Some(j);
        }
        j = j + 1;
    }
    None
}

/// Copies a catalog record by record.
fn clone_layouts(v: &Vec<LayoutInfo>) -> (r: Vec<LayoutInfo>)
    ensures
        r@ == v@,
{
    let n = v.len();
    let mut out: Vec<LayoutInfo> = Vec::new();
    let mut i: usize = 0;
    while i < n
        invariant
            n == v@.len(),
            0 <= i <= n,
            out@ == v@.take(i as int),
        decreases n - i,
    {
        out.push((&v[i]).clone());
        proof {
            assert(out@ =~= v@.take(i + 1));
        }
        i = i + 1;
    }
    proof {
        assert(v@.take(n as int) =~= v@);
    }
    out
}

/// Seeds a rotation from the catalog and the requested country codes: the
/// selection per `initial_selected`, and the index of the entry whose handle
/// is the active layout's, or zero when the active layout is unknown or not
/// selected.
pub fn initialize_rotation(
    catalog: &Vec<LayoutInfo>,
    requested_codes: &Vec<String>,
    current_hkl: Option<usize>,
) -> (r: RotationState)
    ensures
        r.selected@ == initial_selected(catalog@, requested_codes.deep_view()),
        r.wf(),
        match current_hkl {
            Some(h) => {
                &&& has_hkl(r.selected@, h) ==> {
                    &&& (r.current_index as int) < r.selected@.len()
                    &&& r.selected@[r.current_index as int].hkl == h
                    &&& forall|k: int| 0 <= k < r.current_index ==> r.selected@[k].hkl != h
                }
                &&& !has_hkl(r.selected@, h) ==> r.current_index == 0
            },
            None => r.current_index == 0,
        },
{
    let mut selected: Vec<LayoutInfo>;
    if requested_codes.len() == 0 {
        selected = clone_layouts(catalog);
    } else {
        selected = find_layouts_by_codes(catalog, requested_codes);
        if selected.len() <= 1 {
            match get_english_layout(catalog) {
                Some(e) => {
                    if find_hkl_position(&selected, e.hkl).is_none() {
                        let ghost base = selected@;
                        let ghost eg = e;
                        selected.insert(0, e);
                        proof {
                            assert(selected@ =~= seq![eg] + base);
                        }
                    }
                },
                None => {},
            }
        }
    }
    let current_index: usize = match current_hkl {
        Some(h) => match find_hkl_position(&selected, h) {
            Some(j) => j,
            None => 0,
        },
        None => 0,
    };
    RotationState { selected, current_index }
}

/// The status line of one layout: its name followed by its code in
/// parentheses.
pub open spec fn status_label(l: LayoutInfo) -> Seq<char> {
    l.name@ + " ("@ + l.short_code@ + ")"@
}

/// The rotation's status for diagnostics: the active index and one
/// `name (code)` line per selected layout.  Read-only.
pub fn get_switching_status(state: &RotationState) -> (r: (usize, Vec<String>))
    ensures
        r.0 == state.current_index,
        r.1@.len() == state.selected@.len(),
        forall|i: int|
            0 <= i < state.selected@.len() ==> r.1.deep_view()[i] == status_label(
                #[trigger] state.selected@[i],
            ),
{
    let n = state.selected.len();
    let mut labels: Vec<String> = Vec::new();
    let mut i: usize = 0;
    while i < n
        invariant
            n == state.selected@.len(),
            0 <= i <= n,
            labels@.len() == i,
            forall|j: int|
                0 <= j < i ==> labels.deep_view()[j] == status_label(
                    #[trigger] state.selected@[j],
                ),
        decreases n - i,
    {
        let l = &state.selected[i];
        let mut label = l.name.clone();
        label.append(" (");
        label.append(l.short_code.as_str());
        label.append(")");
        proof {
            assert(label@ =~= status_label(state.selected@[i as int]));
        }
        labels.push(label);
        i = i + 1;
    }
    (state.current_index, labels)
}

/// The rotation after `k` consecutive advances.
pub open spec fn advance_iter(s: RotationState, k: nat) -> RotationState
    decreases k,
{
    if k == 0 {
        s
    } else {
        advance_iter(s, (k - 1) as nat).advance_spec().0
    }
}

/// Taking the remainder first does not change a mod-`n` increment.
proof fn lemma_mod_step(a: int, n: int)
    requires
        n >= 1,
        a >= 0,
    ensures
        ((a % n) + 1) % n == (a + 1) % n,
{
    vstd::arithmetic::div_mod::lemma_add_mod_noop(a, 1, n);
    if n == 1 {
        vstd::arithmetic::div_mod::lemma_mod_division_less_than_divisor(1, 1);
    } else {
        vstd::arithmetic::div_mod::lemma_small_mod(1nat, n as nat);
    }
}

/// After `k` advances over a non-empty rotation, the selection is unchanged
/// and the index has moved `k` steps round-robin.
pub proof fn lemma_advance_iter_index(s: RotationState, k: nat)
    requires
        s.wf(),
        s.selected@.len() >= 1,
    ensures
        advance_iter(s, k).selected == s.selected,
        advance_iter(s, k).wf(),
        advance_iter(s, k).current_index as int == (s.current_index + k) % (
        s.selected@.len() as int),
    decreases k,
{
    let n = s.selected@.len() as int;
    if k == 0 {
        vstd::arithmetic::div_mod::lemma_small_mod(s.current_index as nat, n as nat);
    } else {
        lemma_advance_iter_index(s, (k - 1) as nat);
        let prev = advance_iter(s, (k - 1) as nat);
        vstd::std_specs::vec::axiom_spec_len(&s.selected);
        lemma_mod_step(s.current_index + k - 1, n);
        vstd::arithmetic::div_mod::lemma_mod_division_less_than_divisor(
            prev.current_index + 1,
            n,
        );
        vstd::arithmetic::div_mod::lemma_mod_division_less_than_divisor(s.current_index + k, n);
        if n == 1 {
            vstd::arithmetic::div_mod::lemma_mod_division_less_than_divisor(
                s.current_index + k - 1,
                1,
            );
        }
    }
}

/// Two distinct step counts within one cycle land on distinct indices.
proof fn lemma_mod_shift_injective(i0: int, n: int, k1: int, k2: int)
    requires
        0 <= i0 < n,
        1 <= k1 < k2 <= n,
    ensures
        (i0 + k1) % n != (i0 + k2) % n,
{
    if (i0 + k1) % n == (i0 + k2) % n {
        vstd::arithmetic::div_mod::lemma_fundamental_div_mod(i0 + k1, n);
        vstd::arithmetic::div_mod::lemma_fundamental_div_mod(i0 + k2, n);
        let q1 = (i0 + k1) / n;
        let q2 = (i0 + k2) / n;
        let r = (i0 + k1) % n;
        assert(i0 + k1 == n * q1 + r);
        assert(i0 + k2 == n * q2 + r);
        assert(false) by (nonlinear_arith)
            requires
                1 <= k1 < k2 <= n,
                i0 + k1 == n * q1 + r,
                i0 + k2 == n * q2 + r,
        ;
    }
}

/// Within one cycle every index is reached by some step count.
proof fn lemma_mod_shift_surjective(i0: int, n: int, j: int)
    requires
        0 <= i0 < n,
        0 <= j < n,
    ensures
        exists|k: int| 1 <= k <= n && #[trigger] ((i0 + k) % n) == j,
{
    vstd::arithmetic::div_mod::lemma_mod_division_less_than_divisor(j - i0 - 1, n);
    let k = (j - i0 - 1) % n + 1;
    vstd::arithmetic::div_mod::lemma_add_mod_noop_right(i0 + 1, j - i0 - 1, n);
    vstd::arithmetic::div_mod::lemma_small_mod(j as nat, n as nat);
    assert((i0 + k) % n == j);
}

/// Whether some advance among the first `n` (for a rotation of `n` layouts)
/// lands on index `j`.
pub open spec fn visits_index(s: RotationState, j: int) -> bool {
    exists|k: nat|
        1 <= k <= s.selected@.len() && (#[trigger] advance_iter(s, k)).current_index as int == j
}

/// Round-robin law: over a non-empty rotation of `n` layouts, `n`
/// consecutive advances visit pairwise distinct indices — every selected
/// layout exactly once — and the `n`-th advance is back at the starting
/// index, after which the cycle repeats: the next advance yields what the
/// first one yielded.
pub proof fn lemma_round_robin(s: RotationState)
    requires
        s.wf(),
        s.selected@.len() >= 1,
    ensures
        forall|k: nat| (#[trigger] advance_iter(s, k)).selected == s.selected,
        forall|k1: nat, k2: nat|
            1 <= k1 < k2 <= s.selected@.len() ==> advance_iter(s, k1).current_index
                != advance_iter(s, k2).current_index,
        forall|j: int| 0 <= j < s.selected@.len() ==> #[trigger] visits_index(s, j),
        advance_iter(s, s.selected@.len()).current_index == s.current_index,
        advance_iter(s, s.selected@.len()).advance_spec().1 == s.advance_spec().1,
{
    let n = s.selected@.len() as int;
    let i0 = s.current_index as int;
    assert forall|k: nat| (#[trigger] advance_iter(s, k)).selected == s.selected by {
        lemma_advance_iter_index(s, k);
    }
    assert forall|k1: nat, k2: nat|
        1 <= k1 < k2 <= s.selected@.len() implies advance_iter(s, k1).current_index
        != advance_iter(s, k2).current_index by {
        lemma_advance_iter_index(s, k1);
        lemma_advance_iter_index(s, k2);
        lemma_mod_shift_injective(i0, n, k1 as int, k2 as int);
    }
    assert forall|j: int| 0 <= j < s.selected@.len() implies #[trigger] visits_index(s, j) by {
        lemma_mod_shift_surjective(i0, n, j);
        let ki = choose|ki: int| 1 <= ki <= n && #[trigger] ((i0 + ki) % n) == j;
        lemma_advance_iter_index(s, ki as nat);
        assert(1 <= (ki as nat) <= s.selected@.len() && advance_iter(
            s,
            ki as nat,
        ).current_index as int == j);
    }
    lemma_advance_iter_index(s, n as nat);
    vstd::arithmetic::div_mod::lemma_mod_add_multiples_vanish(i0, n);
    vstd::arithmetic::div_mod::lemma_small_mod(i0 as nat, n as nat);
    assert(advance_iter(s, n as nat).current_index == s.current_index);
    assert(advance_iter(s, n as nat) == RotationState {
        selected: s.selected,
        current_index: s.current_index,
    });
}

/// A rotation holding exactly one layout is left unchanged by any number of
/// advances, and every advance yields that same single layout.
pub proof fn lemma_single_layout_constant(s: RotationState, k: nat)
    requires
        s.wf(),
        s.selected@.len() == 1,
    ensures
        advance_iter(s, k) == s,
        advance_iter(s, k).advance_spec().1 == Some(s.selected@[0]),
    decreases k,
{
    if k > 0 {
        lemma_single_layout_constant(s, (k - 1) as nat);
    }
}

} // verus!
