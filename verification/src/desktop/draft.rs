//! The draft of the rule editor. What is edited here takes effect when all is
//! saved.

use crate::desktop::arrange::reorder_file_rule;
use crate::rules::group::{find_id, has_id};
use crate::rules::model::{Rule, RuleSet, RuleSetView, RuleView, SystemRule, SystemRuleView};
use crate::select::lemma_first_holds;
use crate::text::{
    duplicate_all, first_place, kept, lists, opt_view, same, trim, trimmed, views, Class, Duplicate,
};
use vstd::prelude::*;

verus! {

/// A term that is being typed in the list of rules.
#[derive(Clone, Debug)]
pub struct PendingTerm {
    pub id: String,
    pub index: i32,
    pub value: String,
}

/// What a `PendingTerm` holds.
#[verifier::ext_equal]
pub ghost struct PendingTermView {
    pub id: Seq<char>,
    pub index: i32,
    pub value: Seq<char>,
}

impl View for PendingTerm {
    type V = PendingTermView;

    open spec fn view(&self) -> PendingTermView {
        PendingTermView { id: self.id@, index: self.index, value: self.value@ }
    }
}

/// The rules as they are edited, and what the editor shows of them.
#[derive(Debug)]
pub struct Draft {
    pub rules: RuleSet,
    /// The rules that the list shows, by their places.
    pub indices: Vec<usize>,
    pub selected: Option<usize>,
    /// What is edited: keyword rules, tables (1), the timeline (2) or the layout
    /// (3).
    pub section: i32,
    pub expanded: Vec<String>,
    pub pending: Vec<PendingTerm>,
    pub active: String,
    pub search: String,
    pub dirty: bool,
    /// Whether a rule is open in a dialog.
    pub editing: bool,
}

#[verifier::ext_equal]
pub ghost struct DraftView {
    pub rules: RuleSetView,
    pub indices: Seq<usize>,
    pub selected: Option<usize>,
    pub section: i32,
    pub expanded: Seq<Seq<char>>,
    pub pending: Seq<PendingTermView>,
    pub active: Seq<char>,
    pub search: Seq<char>,
    pub dirty: bool,
    pub editing: bool,
}

impl View for Draft {
    type V = DraftView;

    open spec fn view(&self) -> DraftView {
        DraftView {
            rules: self.rules@,
            indices: self.indices@,
            selected: self.selected,
            section: self.section,
            expanded: views(self.expanded@),
            pending: views(self.pending@),
            active: self.active@,
            search: self.search@,
            dirty: self.dirty,
            editing: self.editing,
        }
    }
}

/// The rules after a term was typed; as they are where there is no such term.
pub open spec fn term_put(rules: Seq<RuleView>, t: PendingTermView) -> Seq<RuleView> {
    match first_place(rules, has_id::<Rule>(t.id), 0) {
        Some(i) => if 0 <= t.index < rules[i].terms.len() {
            rules.update(
                i,
                RuleView { terms: rules[i].terms.update(t.index as int, t.value), ..rules[i] },
            )
        } else {
            rules
        },
        None => rules,
    }
}

/// The rules after the first `n` of the terms were typed.
pub open spec fn terms_put(rules: Seq<RuleView>, pending: Seq<PendingTermView>, n: int) -> Seq<
    RuleView,
>
    decreases n,
{
    if n <= 0 {
        rules
    } else {
        term_put(terms_put(rules, pending, n - 1), pending[n - 1])
    }
}

/// Whether one of the first `n` terms changes a rule.
pub open spec fn terms_change(rules: Seq<RuleView>, pending: Seq<PendingTermView>, n: int) -> bool
    decreases n,
{
    n > 0 && (terms_change(rules, pending, n - 1) || terms_put(rules, pending, n) != terms_put(
        rules,
        pending,
        n - 1,
    ))
}

impl DraftView {
    /// How many rules the section has.
    pub open spec fn count(self) -> nat {
        if self.section == 1 {
            self.rules.system.len()
        } else {
            self.rules.rules.len()
        }
    }

    /// The identity of a rule of the section.
    pub open spec fn id_at(self, i: int) -> Seq<char> {
        if self.section == 1 {
            self.rules.system[i].id
        } else {
            self.rules.rules[i].id
        }
    }

    /// What is selected and shown are rules of the section.
    pub open spec fn wf(self) -> bool {
        &&& self.selected matches Some(i) ==> i < self.count()
        &&& forall|k: int| 0 <= k < self.indices.len() ==> #[trigger] self.indices[k] < self.count()
    }

    /// The identity of the selected rule.
    pub open spec fn selected_id(self) -> Option<Seq<char>> {
        match self.selected {
            Some(i) => Some(self.id_at(i as int)),
            None => None,
        }
    }

    /// The place of a rule of the section.
    pub open spec fn place_of(self, id: Seq<char>) -> Option<int> {
        if self.section == 1 {
            first_place(self.rules.system, has_id::<SystemRule>(id), 0)
        } else {
            first_place(self.rules.rules, has_id::<Rule>(id), 0)
        }
    }

    /// The draft with a rule selected by its identity.
    pub open spec fn selecting(self, id: Option<Seq<char>>) -> DraftView {
        DraftView {
            selected: match id {
                Some(id) => match self.place_of(id) {
                    Some(i) => Some(i as usize),
                    None => None,
                },
                None => None,
            },
            ..self
        }
    }

    /// The draft after the terms that are being typed were taken over.
    pub open spec fn flushed(self) -> DraftView {
        DraftView {
            rules: RuleSetView {
                rules: terms_put(self.rules.rules, self.pending, self.pending.len() as int),
                ..self.rules
            },
            pending: Seq::empty(),
            dirty: self.dirty || terms_change(
                self.rules.rules,
                self.pending,
                self.pending.len() as int,
            ),
            ..self
        }
    }

    /// The rule that a row of the list stands for.
    pub open spec fn row_rule(self, row: int) -> Option<usize> {
        if 0 <= row < self.indices.len() && self.indices[row] != usize::MAX {
            Some(self.indices[row])
        } else {
            None
        }
    }

    /// A copy to edit one rule in.
    pub open spec fn forked(self) -> DraftView {
        DraftView { pending: Seq::empty(), editing: false, ..self }
    }
}

/// The terms that are typed do not change how many rules there are, nor who they
/// are.
pub proof fn lemma_terms_put_ids(rules: Seq<RuleView>, pending: Seq<PendingTermView>, n: int)
    ensures
        terms_put(rules, pending, n).len() == rules.len(),
        forall|i: int|
            0 <= i < rules.len() ==> (#[trigger] terms_put(rules, pending, n)[i]).id == rules[i].id,
    decreases n,
{
    if n > 0 {
        lemma_terms_put_ids(rules, pending, n - 1);
        let before = terms_put(rules, pending, n - 1);
        lemma_first_holds(before, has_id::<Rule>(pending[n - 1].id), 0);
    }
}

fn put_term(rules: &mut Vec<Rule>, t: &PendingTerm) -> (changed: bool)
    ensures
        views(final(rules)@) == term_put(views(old(rules)@), t@),
        changed == (term_put(views(old(rules)@), t@) != views(old(rules)@)),
{
    let ghost s = views(rules@);
    match find_id(rules, t.id.as_str()) {
        Some(i) => {
            proof {
                assert(s[i as int] == rules@[i as int]@);
                assert(s[i as int].terms.len() == rules@[i as int].terms.len());
            }
            if t.index < 0 || t.index as usize >= rules[i].terms.len() {
                return false;
            }
            let ghost new = RuleView {
                terms: s[i as int].terms.update(t.index as int, t@.value),
                ..s[i as int]
            };
            let k = t.index as usize;
            proof {
                assert(s[i as int].terms[k as int] == rules@[i as int].terms@[k as int]@);
            }
            if same(rules[i].terms[k].as_str(), t.value.as_str()) {
                proof {
                    assert(new.terms =~= s[i as int].terms);
                    assert(new =~= s[i as int]);
                    assert(s.update(i as int, new) =~= s);
                }
                return false;
            }
            let mut r = rules[i].duplicate();
            let ghost had = views(r.terms@);
            proof {
                assert(had.len() == r.terms.len());
            }
            r.terms.set(k, t.value.clone());
            proof {
                assert(views(r.terms@) =~= had.update(k as int, t@.value));
                assert(r@ =~= new);
            }
            rules.set(i, r);
            proof {
                assert(views(rules@) =~= s.update(i as int, new));
                assert(s.update(i as int, new)[i as int].terms[k as int] != s[i as int].terms[k as int]);
            }
            true
        },
        None => false,
    }
}

impl Draft {
    /// A draft of rules, with nothing selected.
    pub fn new(rules: RuleSet) -> (r: Self)
        ensures
            r@ == (DraftView {
                rules: rules@,
                indices: Seq::empty(),
                selected: None,
                section: 0,
                expanded: Seq::empty(),
                pending: Seq::empty(),
                active: Seq::empty(),
                search: Seq::empty(),
                dirty: false,
                editing: false,
            }),
            r@.wf(),
    {
        let r = Draft {
            rules,
            indices: Vec::new(),
            selected: None,
            section: 0,
            expanded: Vec::new(),
            pending: Vec::new(),
            active: String::new(),
            search: String::new(),
            dirty: false,
            editing: false,
        };
        proof {
            assert(views(r.expanded@) =~= Seq::<Seq<char>>::empty());
            assert(views(r.pending@) =~= Seq::<PendingTermView>::empty());
            assert(r.active@ =~= Seq::<char>::empty());
        }
        r
    }

    /// Takes over the terms that are being typed.
    pub fn flush(&mut self)
        ensures
            final(self)@ == old(self)@.flushed(),
            old(self)@.wf() ==> final(self)@.wf(),
    {
        let ghost sv = self@;
        let ghost rv = views(self.rules.rules@);
        let ghost pv = views(self.pending@);
        let mut i: usize = 0;
        while i < self.pending.len()
            invariant
                i <= self.pending.len(),
                pv == views(self.pending@),
                rv == sv.rules.rules,
                self@ == (DraftView {
                    rules: RuleSetView { rules: terms_put(rv, pv, i as int), ..sv.rules },
                    dirty: sv.dirty || terms_change(rv, pv, i as int),
                    ..sv
                }),
            decreases self.pending.len() - i,
        {
            proof {
                assert(pv[i as int] == self.pending@[i as int]@);
            }
            let ghost before = self@;
            let changed = put_term(&mut self.rules.rules, &self.pending[i]);
            if changed {
                self.dirty = true;
            }
            i += 1;
            proof {
                assert(self@.rules =~= (RuleSetView {
                    rules: terms_put(rv, pv, i as int),
                    ..sv.rules
                }));
                assert(self@ =~= (DraftView {
                    rules: RuleSetView { rules: terms_put(rv, pv, i as int), ..sv.rules },
                    dirty: sv.dirty || terms_change(rv, pv, i as int),
                    ..sv
                }));
            }
        }
        self.pending = Vec::new();
        proof {
            assert(views(self.pending@) =~= Seq::<PendingTermView>::empty());
            assert(pv.len() == i);
            assert(self@ =~= sv.flushed());
            lemma_terms_put_ids(rv, pv, pv.len() as int);
        }
    }

    /// A copy to edit one rule in, without the terms that are being typed.
    pub fn fork(&self) -> (r: Self)
        ensures
            r@ == self@.forked(),
            self@.wf() ==> r@.wf(),
    {
        let r = Draft {
            rules: self.rules.duplicate(),
            indices: self.indices.clone(),
            selected: self.selected,
            section: self.section,
            expanded: duplicate_all(&self.expanded),
            pending: Vec::new(),
            active: self.active.clone(),
            search: self.search.clone(),
            dirty: self.dirty,
            editing: false,
        };
        proof {
            assert(views(r.pending@) =~= Seq::<PendingTermView>::empty());
            assert(r.indices@ =~= self.indices@);
            assert(r@ =~= self@.forked());
        }
        r
    }

    fn id_of(&self, i: usize) -> (r: String)
        requires
            i < self@.count(),
        ensures
            r@ == self@.id_at(i as int),
    {
        if self.section == 1 {
            proof {
                assert(self@.rules.system[i as int] == self.rules.system@[i as int]@);
            }
            self.rules.system[i].id.clone()
        } else {
            proof {
                assert(self@.rules.rules[i as int] == self.rules.rules@[i as int]@);
            }
            self.rules.rules[i].id.clone()
        }
    }

    /// The identity of the selected rule.
    pub fn selected_id(&self) -> (r: Option<String>)
        requires
            self@.wf(),
        ensures
            opt_view(r) == self@.selected_id(),
    {
        match self.selected {
            Some(i) => Some(self.id_of(i)),
            None => None,
        }
    }

    /// Selects a rule by its identity.
    pub fn select_id(&mut self, id: &Option<String>)
        ensures
            final(self)@ == old(self)@.selecting(opt_view(*id)),
            (forall|k: int|
                0 <= k < old(self)@.indices.len() ==> #[trigger] old(self)@.indices[k] < old(
                    self,
                )@.count()) ==> final(self)@.wf(),
    {
        let ghost sv = self@;
        self.selected = match id {
            Some(id) => if self.section == 1 {
                find_id(&self.rules.system, id.as_str())
            } else {
                find_id(&self.rules.rules, id.as_str())
            },
            None => None,
        };
        proof {
            assert(self@.rules.system.len() == self.rules.system.len());
            assert(self@.rules.rules.len() == self.rules.rules.len());
            assert(self@ =~= sv.selecting(opt_view(*id)));
        }
    }
}

/// The terms that are being typed with one more; one that was typed at the same
/// place gives way.
pub open spec fn staged(pending: Seq<PendingTermView>, t: PendingTermView) -> Seq<PendingTermView> {
    match first_place(pending, typed_at(t.id, t.index), 0) {
        Some(i) => pending.update(i, t),
        None => pending.push(t),
    }
}

pub open spec fn typed_at(id: Seq<char>, index: i32) -> spec_fn(PendingTermView) -> bool {
    |t: PendingTermView| t.id == id && t.index == index
}

/// The terms of a rule after one of them was edited in the list, removed, or one
/// was added.
pub open spec fn inline_terms(
    terms: Seq<Seq<char>>,
    index: i32,
    value: Seq<char>,
    remove: bool,
) -> Seq<Seq<char>> {
    let term = trim(value, Class::White);
    if remove {
        if 0 <= index < terms.len() {
            terms.remove(index as int)
        } else {
            terms
        }
    } else if index < 0 {
        if term.len() > 0 {
            terms.push(term)
        } else {
            terms
        }
    } else if index < terms.len() {
        terms.update(index as int, term)
    } else {
        terms
    }
}

impl DraftView {
    /// The draft after a term of a rule was edited in the list.
    pub open spec fn with_inline_term(
        self,
        id: Seq<char>,
        index: i32,
        value: Seq<char>,
        remove: bool,
    ) -> DraftView {
        let d = self.flushed();
        match first_place(d.rules.rules, has_id::<Rule>(id), 0) {
            Some(i) => {
                let r = d.rules.rules[i];
                DraftView {
                    rules: RuleSetView {
                        rules: d.rules.rules.update(
                            i,
                            RuleView { terms: inline_terms(r.terms, index, value, remove), ..r },
                        ),
                        ..d.rules
                    },
                    dirty: true,
                    ..d
                }
            },
            None => d,
        }
    }

    /// The draft after a rule was switched on or off.
    pub open spec fn with_enabled(self, id: Seq<char>, enabled: bool) -> DraftView {
        let d = self.flushed();
        DraftView {
            rules: if d.section == 1 {
                match first_place(d.rules.system, has_id::<SystemRule>(id), 0) {
                    Some(i) => RuleSetView {
                        system: d.rules.system.update(
                            i,
                            SystemRuleView { enabled, ..d.rules.system[i] },
                        ),
                        ..d.rules
                    },
                    None => d.rules,
                }
            } else {
                match first_place(d.rules.rules, has_id::<Rule>(id), 0) {
                    Some(i) => RuleSetView {
                        rules: d.rules.rules.update(i, RuleView { enabled, ..d.rules.rules[i] }),
                        ..d.rules
                    },
                    None => d.rules,
                }
            },
            dirty: true,
            ..d
        }
    }

    /// The draft after a rule was moved beside another by its identity; the
    /// selection stays with its rule.
    pub open spec fn with_rule_moved(self, id: Seq<char>, anchor: Seq<char>, after: bool) -> DraftView {
        (DraftView {
            rules: self.rules.with_reordered(self.section == 1, id, anchor, after),
            dirty: true,
            ..self
        }).selecting(self.selected_id())
    }

    /// The draft after a rule was dropped at a row; nothing moves while the list
    /// is searched.
    pub open spec fn with_drop(self, moving: Seq<char>, to: i32, after: bool) -> DraftView {
        let d = self.flushed();
        if d.search.len() > 0 {
            d
        } else {
            match d.row_rule(to as int) {
                Some(i) => d.with_rule_moved(moving, d.id_at(i as int), after),
                None => d,
            }
        }
    }

    /// The row of the selected rule.
    pub open spec fn selected_row(self) -> Option<int> {
        match self.selected {
            Some(i) => crate::text::first_index(self.indices, i),
            None => None,
        }
    }

    /// The draft after the selected rule was moved by some rows; nothing moves
    /// while the list is searched.
    pub open spec fn with_step(self, delta: i32) -> DraftView {
        let d = self.flushed();
        match d.selected_row() {
            Some(row) => if d.search.len() > 0 || !(0 <= row + delta < d.indices.len()) {
                d
            } else {
                d.with_rule_moved(
                    d.selected_id()->0,
                    d.id_at(d.indices[row + delta] as int),
                    delta > 0,
                )
            },
            None => d,
        }
    }

    /// The draft after a rule was folded or unfolded.
    pub open spec fn with_toggled(self, id: Seq<char>) -> DraftView {
        let d = self.flushed();
        DraftView {
            expanded: if d.expanded.contains(id) {
                kept(d.expanded, crate::rules::edit::other_text(id), 0)
            } else {
                d.expanded.push(id)
            },
            ..d
        }
    }

    /// The draft without the selected rule.
    pub open spec fn without_selected(self) -> DraftView {
        let d = self.flushed();
        match d.selected {
            Some(i) => DraftView {
                rules: if d.section == 1 {
                    RuleSetView { system: d.rules.system.remove(i as int), ..d.rules }
                } else {
                    RuleSetView { rules: d.rules.rules.remove(i as int), ..d.rules }
                },
                indices: Seq::empty(),
                selected: None,
                dirty: true,
                ..d
            },
            None => d,
        }
    }

    /// The draft in another section, with nothing selected and nothing searched.
    pub open spec fn in_section(self, section: i32) -> DraftView {
        DraftView {
            section,
            indices: Seq::empty(),
            selected: None,
            search: Seq::empty(),
            ..self.flushed()
        }
    }

    /// The draft of other rules.
    pub open spec fn of_rules(self, rules: RuleSetView, dirty: bool, drop_typed: bool) -> DraftView {
        DraftView {
            rules,
            indices: Seq::empty(),
            selected: None,
            pending: if drop_typed {
                Seq::empty()
            } else {
                self.pending
            },
            dirty,
            ..self
        }
    }
}

impl Draft {
    /// Remembers a term that is being typed in the list, which no rule that is
    /// open in a dialog lets through.
    pub fn stage_term(&mut self, id: &str, index: i32, value: &str)
        ensures
            final(self)@ == (if old(self).editing {
                old(self)@
            } else {
                DraftView {
                    pending: staged(
                        old(self)@.pending,
                        PendingTermView { id: id@, index, value: value@ },
                    ),
                    ..old(self)@
                }
            }),
    {
        if self.editing {
            return ;
        }
        let ghost sv = self@;
        let t = PendingTerm { id: id.to_owned(), index, value: value.to_owned() };
        let ghost tv = t@;
        let f = |t: &PendingTerm| -> (r: bool)
            ensures
                r == typed_at(id@, index)(t@),
            { same(t.id.as_str(), id) && t.index == index };
        let at = crate::select::find_by(&self.pending, &f, Ghost(typed_at(id@, index)));
        match at {
            Some(i) => {
                self.pending.set(i, t);
                proof {
                    assert(views(self.pending@) =~= sv.pending.update(i as int, tv));
                }
            },
            None => {
                self.pending.push(t);
                proof {
                    assert(views(self.pending@) =~= sv.pending.push(tv));
                }
            },
        }
    }

    /// Edits, removes or adds a term of a rule in the list.
    pub fn inline_term(&mut self, id: &str, index: i32, value: &str, remove: bool)
        ensures
            final(self)@ == old(self)@.with_inline_term(id@, index, value@, remove),
            old(self)@.wf() ==> final(self)@.wf(),
    {
        let ghost start = self@;
        self.flush();
        let ghost sv = self@;
        if let Some(i) = find_id(&self.rules.rules, id) {
            proof {
                assert(sv.rules.rules[i as int] == self.rules.rules@[i as int]@);
            }
            let mut r = self.rules.rules[i].duplicate();
            edit_terms(&mut r.terms, index, value, remove);
            self.dirty = true;
            let ghost new = r@;
            proof {
                assert(new =~= (RuleView {
                    terms: inline_terms(sv.rules.rules[i as int].terms, index, value@, remove),
                    ..sv.rules.rules[i as int]
                }));
            }
            self.rules.rules.set(i, r);
            proof {
                assert(views(self.rules.rules@) =~= sv.rules.rules.update(i as int, new));
                assert(self@ =~= start.with_inline_term(id@, index, value@, remove));
            }
        }
    }

    /// Switches a rule on or off in the list.
    pub fn set_enabled(&mut self, id: &str, enabled: bool)
        ensures
            final(self)@ == old(self)@.with_enabled(id@, enabled),
            old(self)@.wf() ==> final(self)@.wf(),
    {
        let ghost start = self@;
        self.flush();
        let ghost sv = self@;
        if self.section == 1 {
            if let Some(i) = find_id(&self.rules.system, id) {
                let mut r = self.rules.system[i].duplicate();
                r.enabled = enabled;
                let ghost new = r@;
                self.rules.system.set(i, r);
                proof {
                    assert(views(self.rules.system@) =~= sv.rules.system.update(i as int, new));
                }
            }
        } else {
            if let Some(i) = find_id(&self.rules.rules, id) {
                let mut r = self.rules.rules[i].duplicate();
                r.enabled = enabled;
                let ghost new = r@;
                self.rules.rules.set(i, r);
                proof {
                    assert(views(self.rules.rules@) =~= sv.rules.rules.update(i as int, new));
                }
            }
        }
        self.dirty = true;
        proof {
            assert(self@.rules =~= start.with_enabled(id@, enabled).rules);
            assert(self@ =~= start.with_enabled(id@, enabled));
        }
    }

    /// Selects the rule of a row, none where the row has none.
    pub fn choose_row(&mut self, row: i32)
        requires
            old(self)@.wf(),
        ensures
            final(self)@ == (DraftView {
                selected: old(self)@.row_rule(row as int),
                ..old(self)@.flushed()
            }),
            final(self)@.wf(),
    {
        self.flush();
        self.selected = self.rule_of_row(row as i64);
    }

    fn rule_of_row(&self, row: i64) -> (r: Option<usize>)
        ensures
            r == self@.row_rule(row as int),
    {
        if row >= 0 && (row as u64) < self.indices.len() as u64 && self.indices[row as usize]
            != usize::MAX {
            Some(self.indices[row as usize])
        } else {
            None
        }
    }

    /// Moves a rule to a row of the list.
    pub fn drop_row(&mut self, moving: &str, to: i32, after: bool)
        requires
            old(self)@.wf(),
        ensures
            final(self)@ == old(self)@.with_drop(moving@, to, after),
            final(self)@.wf(),
    {
        self.flush();
        if !self.search.as_str().is_empty() {
            return;
        }
        if let Some(i) = self.rule_of_row(to as i64) {
            let anchor = self.id_of(i);
            self.move_beside(moving, anchor.as_str(), after);
        }
    }

    fn move_beside(&mut self, id: &str, anchor: &str, after: bool)
        requires
            old(self)@.wf(),
        ensures
            final(self)@ == old(self)@.with_rule_moved(id@, anchor@, after),
            final(self)@.wf(),
    {
        let ghost sv = self@;
        let selected = self.selected_id();
        let system = self.section == 1;
        reorder_file_rule(&mut self.rules, system, id, anchor, after);
        self.dirty = true;
        proof {
            crate::desktop::arrange::lemma_reordered_len::<Rule>(sv.rules.rules, id@, anchor@, after);
            crate::desktop::arrange::lemma_reordered_len::<SystemRule>(
                sv.rules.system,
                id@,
                anchor@,
                after,
            );
        }
        self.select_id(&selected);
    }

    /// Moves the selected rule by some rows.
    pub fn move_rule(&mut self, delta: i32)
        requires
            old(self)@.wf(),
            old(self)@.indices.len() <= i32::MAX,
        ensures
            final(self)@ == old(self)@.with_step(delta),
            final(self)@.wf(),
    {
        self.flush();
        if !self.search.as_str().is_empty() {
            return;
        }
        if let Some(id) = self.selected_id() {
            if let Some(row) = self.find_selected_row() {
                let to: i64 = row as i64 + delta as i64;
                if to >= 0 && (to as u64) < self.indices.len() as u64 {
                    let anchor = self.id_of(self.indices[to as usize]);
                    self.move_beside(id.as_str(), anchor.as_str(), delta > 0);
                }
            }
        }
    }

    /// The row of the selected rule.
    pub fn find_selected_row(&self) -> (r: Option<usize>)
        ensures
            (match r {
                Some(k) => k < self.indices.len() && self@.selected_row() == Some(k as int),
                None => self@.selected_row() is None,
            }),
    {
        match self.selected {
            Some(i) => {
                let mut k: usize = 0;
                while k < self.indices.len()
                    invariant
                        k <= self.indices.len(),
                        self.selected == Some(i),
                        crate::text::index_from(self.indices@, i, 0) == crate::text::index_from(
                            self.indices@,
                            i,
                            k as int,
                        ),
                    decreases self.indices.len() - k,
                {
                    if self.indices[k] == i {
                        return Some(k);
                    }
                    k += 1;
                }
                None
            },
            None => None,
        }
    }

    /// Folds or unfolds a rule.
    pub fn toggle_rule(&mut self, id: &str)
        ensures
            final(self)@ == old(self)@.with_toggled(id@),
            old(self)@.wf() ==> final(self)@.wf(),
    {
        self.flush();
        let ghost sv = self@;
        if lists(&self.expanded, id) {
            self.expanded = crate::rules::edit::other_texts(&self.expanded, id);
            proof {
                assert(self@.expanded =~= sv.with_toggled(id@).expanded);
            }
        } else {
            self.expanded.push(id.to_owned());
            proof {
                assert(views(self.expanded@) =~= sv.expanded.push(id@));
            }
        }
    }

    /// Deletes the selected rule.
    pub fn delete_rule(&mut self)
        requires
            old(self)@.wf(),
        ensures
            final(self)@ == old(self)@.without_selected(),
            final(self)@.wf(),
    {
        let ghost start = self@;
        self.flush();
        let ghost sv = self@;
        if let Some(i) = self.selected {
            if self.section == 1 {
                self.rules.system.remove(i);
                proof {
                    assert(views(self.rules.system@) =~= sv.rules.system.remove(i as int));
                }
            } else {
                self.rules.rules.remove(i);
                proof {
                    assert(views(self.rules.rules@) =~= sv.rules.rules.remove(i as int));
                }
            }
            self.indices = Vec::new();
            self.selected = None;
            self.dirty = true;
            proof {
                assert(self@.rules =~= start.without_selected().rules);
                assert(self@ =~= start.without_selected());
            }
        }
    }

    /// Goes to another section.
    pub fn change_section(&mut self, section: i32)
        ensures
            final(self)@ == old(self)@.in_section(section),
            final(self)@.wf(),
    {
        let ghost start = self@;
        self.flush();
        self.section = section;
        self.indices = Vec::new();
        self.selected = None;
        self.search = String::new();
        proof {
            assert(self@ =~= start.in_section(section));
        }
    }

    /// Selects the first rule that the list shows.
    pub fn select_first(&mut self)
        requires
            old(self)@.wf(),
        ensures
            final(self)@ == (DraftView {
                selected: if old(self)@.indices.len() > 0 {
                    old(self)@.row_rule(0)
                } else {
                    old(self)@.selected
                },
                ..old(self)@
            }),
            final(self)@.wf(),
    {
        if self.indices.len() > 0 {
            self.selected = self.rule_of_row(0);
        }
    }

    /// Takes over other rules: the standard ones, downloaded or imported ones.
    pub fn take_rules(&mut self, rules: RuleSet, dirty: bool, drop_typed: bool)
        ensures
            final(self)@ == old(self)@.of_rules(rules@, dirty, drop_typed),
            final(self)@.wf(),
    {
        let ghost start = self@;
        self.rules = rules;
        self.indices = Vec::new();
        self.selected = None;
        if drop_typed {
            self.pending = Vec::new();
            proof {
                assert(views(self.pending@) =~= Seq::<PendingTermView>::empty());
            }
        }
        self.dirty = dirty;
        proof {
            assert(self@ =~= start.of_rules(rules@, dirty, drop_typed));
        }
    }
}

fn edit_terms(terms: &mut Vec<String>, index: i32, value: &str, remove: bool)
    ensures
        views(final(terms)@) == inline_terms(views(old(terms)@), index, value@, remove),
{
    let ghost s = views(terms@);
    proof {
        assert(s.len() == terms.len());
    }
    let term = trimmed(value, Class::White);
    let ghost tv = term@;
    if remove {
        if index >= 0 && (index as usize) < terms.len() {
            terms.remove(index as usize);
            proof {
                assert(views(terms@) =~= s.remove(index as int));
            }
        }
    } else if index < 0 {
        if !term.as_str().is_empty() {
            terms.push(term);
            proof {
                assert(views(terms@) =~= s.push(tv));
            }
        }
    } else if (index as usize) < terms.len() {
        terms.set(index as usize, term);
        proof {
            assert(views(terms@) =~= s.update(index as int, tv));
        }
    }
}

} // verus!
