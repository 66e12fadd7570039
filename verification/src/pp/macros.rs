//! Macro definitions and the table that holds them.
//!
//! The table keeps its definitions ordered by name. Defining a macro that is
//! already defined keeps the old definition when the two are equivalent and
//! replaces it otherwise; the dynamic macros (`__LINE__` and the like) are
//! available until they are defined or undefined explicitly.

use vstd::prelude::*;

use crate::pp::condition::{diagnostic_view, diagnostic_views, plain_error, DiagnosticView};
use crate::pp::diagnostic::{PpDiagnostic, PpDiagnosticCategory, PpSeverity};
use crate::pp::token::{
    duplicate_token, identifier_name, token_fields, tokens_fields, PpToken,
    PpTokenKind, Span,
};
use crate::text::{
    chars_of, lemma_text_lt_asymmetric, lemma_text_lt_irreflexive, lemma_text_lt_total,
    lemma_text_lt_transitive, str_eq, string_from_chars, text_less, text_lt,
};

verus! {

/// Whether a macro takes arguments: its parameter names, and whether it is
/// variadic.
#[derive(Clone, Debug, PartialEq, Eq)]
pub enum MacroForm {
    Object,
    Function { parameters: Vec<String>, variadic: bool },
}

/// A macro definition.
#[derive(Clone, Debug, PartialEq, Eq)]
pub struct MacroDefinition {
    pub name: String,
    pub form: MacroForm,
    pub replacement: Vec<PpToken>,
    pub definition_span: Span,
    pub predefined: bool,
}

/// The view of a macro's form.
pub enum FormView {
    Object,
    Function(Seq<Seq<char>>, bool),
}

pub open spec fn string_seq(strings: Seq<String>) -> Seq<Seq<char>> {
    Seq::new(strings.len(), |i: int| strings[i]@)
}

pub open spec fn form_view(form: MacroForm) -> FormView {
    match form {
        MacroForm::Object => FormView::Object,
        MacroForm::Function { parameters, variadic } => FormView::Function(
            string_seq(parameters@),
            variadic,
        ),
    }
}

/// Whether two definitions are the same: the same form, and replacement
/// lists of the same tokens with the same spacing between them (the spacing
/// before the first token does not count).
pub open spec fn equivalent(left: MacroDefinition, right: MacroDefinition) -> bool {
    &&& form_view(left.form) == form_view(right.form)
    &&& left.replacement.len() == right.replacement.len()
    &&& forall|i: int|
        0 <= i < left.replacement.len() ==> {
            let l = #[trigger] left.replacement@[i];
            let r = right.replacement@[i];
            l.kind == r.kind && l.spelling@ == r.spelling@ && (i == 0 || l.leading_space
                == r.leading_space)
        }
}

fn same_strings(left: &Vec<String>, right: &Vec<String>) -> (result: bool)
    ensures
        result == (string_seq(left@) == string_seq(right@)),
{
    if left.len() != right.len() {
        assert(string_seq(left@).len() != string_seq(right@).len());
        return false;
    }
    let mut i: usize = 0;
    while i < left.len()
        invariant
            i <= left.len() == right.len(),
            forall|j: int| 0 <= j < i ==> (#[trigger] left@[j])@ == right@[j]@,
        decreases left.len() - i,
    {
        if !str_eq(left[i].as_str(), right[i].as_str()) {
            assert(string_seq(left@)[i as int] != string_seq(right@)[i as int]);
            return false;
        }
        i = i + 1;
    }
    assert(string_seq(left@) =~= string_seq(right@));
    true
}

fn same_form(left: &MacroForm, right: &MacroForm) -> (result: bool)
    ensures
        result == (form_view(*left) == form_view(*right)),
{
    match (left, right) {
        (MacroForm::Object, MacroForm::Object) => true,
        (
            MacroForm::Function { parameters: a, variadic: x },
            MacroForm::Function { parameters: b, variadic: y },
        ) => *x == *y && same_strings(a, b),
        _ => false,
    }
}

/// Whether two definitions are equivalent, so that defining the second
/// over the first is no redefinition.
pub fn definitions_equivalent(left: &MacroDefinition, right: &MacroDefinition) -> (result: bool)
    ensures
        result == equivalent(*left, *right),
{
    if !same_form(&left.form, &right.form) || left.replacement.len() != right.replacement.len() {
        return false;
    }
    let mut i: usize = 0;
    while i < left.replacement.len()
        invariant
            i <= left.replacement.len() == right.replacement.len(),
            form_view(left.form) == form_view(right.form),
            forall|j: int|
                0 <= j < i ==> {
                    let l = #[trigger] left.replacement@[j];
                    let r = right.replacement@[j];
                    l.kind == r.kind && l.spelling@ == r.spelling@ && (j == 0 || l.leading_space
                        == r.leading_space)
                },
        decreases left.replacement.len() - i,
    {
        let l = &left.replacement[i];
        let r = &right.replacement[i];
        if !(l.kind == r.kind && str_eq(l.spelling.as_str(), r.spelling.as_str()) && (i == 0
            || l.leading_space == r.leading_space)) {
            return false;
        }
        i = i + 1;
    }
    true
}

/// The macros whose value the preprocessor supplies.
pub open spec fn dynamic_name(name: Seq<char>) -> bool {
    name == "__LINE__"@ || name == "__FILE__"@ || name == "__DATE__"@ || name == "__TIME__"@
        || name == "__COUNTER__"@ || name == "__has_include"@ || name == "__has_include_next"@
        || name == "__has_attribute"@ || name == "__has_builtin"@ || name == "__has_feature"@
        || name == "__has_extension"@
}

pub fn is_dynamic_name(name: &str) -> (result: bool)
    ensures
        result == dynamic_name(name@),
{
    str_eq(name, "__LINE__") || str_eq(name, "__FILE__") || str_eq(name, "__DATE__") || str_eq(
        name,
        "__TIME__",
    ) || str_eq(name, "__COUNTER__") || str_eq(name, "__has_include") || str_eq(
        name,
        "__has_include_next",
    ) || str_eq(name, "__has_attribute") || str_eq(name, "__has_builtin") || str_eq(
        name,
        "__has_feature",
    ) || str_eq(name, "__has_extension")
}

/// What defining a macro did.
#[derive(Clone, Debug)]
pub enum DefineResult {
    Inserted,
    Equivalent,
    /// The previous, different definition was replaced.
    Replaced(MacroDefinition),
}

/// The defined macros, ordered by name, the dynamic macros switched off by
/// an explicit definition or `#undef`, and the next `__COUNTER__` value.
pub struct MacroTable {
    definitions: Vec<MacroDefinition>,
    disabled_dynamic: Vec<String>,
    counter: u64,
}

/// Definitions strictly ordered by name.
pub open spec fn ordered(defs: Seq<MacroDefinition>) -> bool {
    forall|i: int, j: int| 0 <= i < j < defs.len() ==> text_lt(#[trigger] defs[i].name@, #[trigger] defs[j].name@)
}

/// The position of the definition of `name`.
pub open spec fn position(defs: Seq<MacroDefinition>, name: Seq<char>) -> Option<int> {
    if exists|i: int| 0 <= i < defs.len() && (#[trigger] defs[i]).name@ == name {
        Some(choose|i: int| 0 <= i < defs.len() && (#[trigger] defs[i]).name@ == name)
    } else {
        None
    }
}

/// The definition of `name` in `defs`.
pub open spec fn lookup(defs: Seq<MacroDefinition>, name: Seq<char>) -> Option<MacroDefinition> {
    match position(defs, name) {
        Some(i) => Some(defs[i]),
        None => None,
    }
}

proof fn lemma_position(defs: Seq<MacroDefinition>, name: Seq<char>, i: int)
    requires
        ordered(defs),
        0 <= i < defs.len(),
        defs[i].name@ == name,
    ensures
        position(defs, name) == Some(i),
{
    assert(exists|j: int| 0 <= j < defs.len() && (#[trigger] defs[j]).name@ == name) by {
        assert(defs[i].name@ == name);
    }
    let c = position(defs, name)->Some_0;
    assert(0 <= c < defs.len() && defs[c].name@ == name);
    if c < i {
        assert(text_lt(defs[c].name@, defs[i].name@));
        lemma_text_lt_irreflexive(name);
    } else if c > i {
        assert(text_lt(defs[i].name@, defs[c].name@));
        lemma_text_lt_irreflexive(name);
    }
}

proof fn lemma_absent(defs: Seq<MacroDefinition>, name: Seq<char>)
    requires
        forall|j: int| 0 <= j < defs.len() ==> (#[trigger] defs[j]).name@ != name,
    ensures
        position(defs, name) is None,
{
}

proof fn lemma_insert_lookup(defs: Seq<MacroDefinition>, p: int, d: MacroDefinition)
    requires
        ordered(defs),
        0 <= p <= defs.len(),
        forall|j: int| 0 <= j < p ==> text_lt(#[trigger] defs[j].name@, d.name@),
        forall|j: int| p <= j < defs.len() ==> text_lt(d.name@, #[trigger] defs[j].name@),
    ensures
        ordered(defs.insert(p, d)),
        lookup(defs.insert(p, d), d.name@) == Some(d),
        forall|n: Seq<char>| n != d.name@ ==> #[trigger] lookup(defs.insert(p, d), n) == lookup(defs, n),
{
    let new = defs.insert(p, d);
    assert forall|i: int, j: int| 0 <= i < j < new.len() implies text_lt(
        #[trigger] new[i].name@,
        #[trigger] new[j].name@,
    ) by {
        if j < p {
        } else if j == p {
        } else if i < p {
            assert(new[j] == defs[j - 1]);
            lemma_text_lt_transitive(new[i].name@, d.name@, defs[j - 1].name@);
        } else if i == p {
            assert(new[j] == defs[j - 1]);
        } else {
            assert(new[i] == defs[i - 1]);
            assert(new[j] == defs[j - 1]);
        }
    }
    lemma_position(new, d.name@, p);
    assert forall|n: Seq<char>| n != d.name@ implies #[trigger] lookup(new, n) == lookup(defs, n) by {
        if exists|j: int| 0 <= j < defs.len() && (#[trigger] defs[j]).name@ == n {
            let j = choose|j: int| 0 <= j < defs.len() && (#[trigger] defs[j]).name@ == n;
            lemma_position(defs, n, j);
            if j < p {
                assert(new[j] == defs[j]);
                lemma_position(new, n, j);
            } else {
                assert(new[j + 1] == defs[j]);
                lemma_position(new, n, j + 1);
            }
        } else {
            assert forall|i: int| 0 <= i < new.len() implies (#[trigger] new[i]).name@ != n by {
                if i < p {
                    assert(new[i] == defs[i]);
                } else if i > p {
                    assert(new[i] == defs[i - 1]);
                }
            }
            lemma_absent(new, n);
        }
    }
}

proof fn lemma_update_lookup(defs: Seq<MacroDefinition>, i: int, d: MacroDefinition)
    requires
        ordered(defs),
        0 <= i < defs.len(),
        defs[i].name@ == d.name@,
    ensures
        ordered(defs.update(i, d)),
        lookup(defs.update(i, d), d.name@) == Some(d),
        forall|n: Seq<char>| n != d.name@ ==> #[trigger] lookup(defs.update(i, d), n) == lookup(defs, n),
{
    let new = defs.update(i, d);
    assert forall|a: int, b: int| 0 <= a < b < new.len() implies text_lt(
        #[trigger] new[a].name@,
        #[trigger] new[b].name@,
    ) by {
        assert(new[a].name@ == defs[a].name@);
        assert(new[b].name@ == defs[b].name@);
    }
    lemma_position(new, d.name@, i);
    assert forall|n: Seq<char>| n != d.name@ implies #[trigger] lookup(new, n) == lookup(defs, n) by {
        if exists|j: int| 0 <= j < defs.len() && (#[trigger] defs[j]).name@ == n {
            let j = choose|j: int| 0 <= j < defs.len() && (#[trigger] defs[j]).name@ == n;
            lemma_position(defs, n, j);
            lemma_position(new, n, j);
        } else {
            assert forall|a: int| 0 <= a < new.len() implies (#[trigger] new[a]).name@ != n by {
                assert(new[a].name@ == defs[a].name@);
            }
            lemma_absent(new, n);
        }
    }
}

proof fn lemma_remove_lookup(defs: Seq<MacroDefinition>, i: int)
    requires
        ordered(defs),
        0 <= i < defs.len(),
    ensures
        ordered(defs.remove(i)),
        lookup(defs.remove(i), defs[i].name@) is None,
        forall|n: Seq<char>| n != defs[i].name@ ==> #[trigger] lookup(defs.remove(i), n) == lookup(defs, n),
{
    let new = defs.remove(i);
    let name = defs[i].name@;
    assert forall|a: int, b: int| 0 <= a < b < new.len() implies text_lt(
        #[trigger] new[a].name@,
        #[trigger] new[b].name@,
    ) by {
        let oa = if a < i { a } else { a + 1 };
        let ob = if b < i { b } else { b + 1 };
        assert(new[a] == defs[oa]);
        assert(new[b] == defs[ob]);
    }
    assert forall|a: int| 0 <= a < new.len() implies (#[trigger] new[a]).name@ != name by {
        let oa = if a < i { a } else { a + 1 };
        assert(new[a] == defs[oa]);
        if oa < i {
            assert(text_lt(defs[oa].name@, name));
        } else {
            assert(text_lt(name, defs[oa].name@));
        }
        lemma_text_lt_irreflexive(name);
    }
    lemma_absent(new, name);
    assert forall|n: Seq<char>| n != name implies #[trigger] lookup(new, n) == lookup(defs, n) by {
        if exists|j: int| 0 <= j < defs.len() && (#[trigger] defs[j]).name@ == n {
            let j = choose|j: int| 0 <= j < defs.len() && (#[trigger] defs[j]).name@ == n;
            lemma_position(defs, n, j);
            let nj = if j < i { j } else { j - 1 };
            assert(j != i);
            assert(new[nj] == defs[j]);
            lemma_position(new, n, nj);
        } else {
            assert forall|a: int| 0 <= a < new.len() implies (#[trigger] new[a]).name@ != n by {
                let oa = if a < i { a } else { a + 1 };
                assert(new[a] == defs[oa]);
            }
            lemma_absent(new, n);
        }
    }
}

impl MacroTable {
    /// The table's invariant: its definitions are ordered by name, so that
    /// no name is defined twice.
    pub closed spec fn well_formed(&self) -> bool {
        ordered(self.definitions@)
    }

    /// The definition of `name`.
    pub closed spec fn definition(&self, name: Seq<char>) -> Option<MacroDefinition> {
        lookup(self.definitions@, name)
    }

    /// The names of the dynamic macros that are switched off.
    pub closed spec fn disabled(&self) -> Set<Seq<char>> {
        Set::new(
            |n: Seq<char>|
                exists|i: int|
                    0 <= i < self.disabled_dynamic@.len() && (#[trigger] self.disabled_dynamic@[i])@
                        == n,
        )
    }

    /// The next `__COUNTER__` value.
    pub closed spec fn counter_value(&self) -> u64 {
        self.counter
    }

    /// The definitions in name order.
    pub closed spec fn ordered_definitions(&self) -> Seq<MacroDefinition> {
        self.definitions@
    }

    /// Whether `name` is a dynamic macro that is still available.
    pub open spec fn dynamic_available(&self, name: Seq<char>) -> bool {
        dynamic_name(name) && !self.disabled().contains(name)
    }

    /// An empty table, with every dynamic macro available.
    pub fn new() -> (result: Self)
        ensures
            result.well_formed(),
            forall|n: Seq<char>| #[trigger] result.definition(n) is None,
            result.disabled() == Set::<Seq<char>>::empty(),
            result.counter_value() == 0,
    {
        let result = MacroTable { definitions: Vec::new(), disabled_dynamic: Vec::new(), counter: 0 };
        assert(result.disabled() =~= Set::<Seq<char>>::empty());
        result
    }

    fn find(&self, name: &str) -> (result: Result<usize, usize>)
        requires
            self.well_formed(),
        ensures
            match result {
                Ok(i) => i < self.definitions@.len() && self.definitions@[i as int].name@ == name@,
                Err(p) => p <= self.definitions@.len() && (forall|j: int|
                    0 <= j < p ==> text_lt(#[trigger] self.definitions@[j].name@, name@)) && (
                forall|j: int|
                    p <= j < self.definitions@.len() ==> text_lt(
                        name@,
                        #[trigger] self.definitions@[j].name@,
                    )),
            },
    {
        let mut i: usize = 0;
        while i < self.definitions.len() && text_less(self.definitions[i].name.as_str(), name)
            invariant
                i <= self.definitions@.len(),
                ordered(self.definitions@),
                forall|j: int| 0 <= j < i ==> text_lt(#[trigger] self.definitions@[j].name@, name@),
            decreases self.definitions.len() - i,
        {
            i = i + 1;
        }
        if i < self.definitions.len() && str_eq(self.definitions[i].name.as_str(), name) {
            return Ok(i);
        }
        proof {
            if i < self.definitions@.len() {
                let here = self.definitions@[i as int].name@;
                lemma_text_lt_total(here, name@);
                assert forall|j: int| i <= j < self.definitions@.len() implies text_lt(
                    name@,
                    #[trigger] self.definitions@[j].name@,
                ) by {
                    if j > i {
                        lemma_text_lt_transitive(name@, here, self.definitions@[j].name@);
                    }
                }
            }
        }
        Err(i)
    }

    /// The definition of `name`.
    pub fn get(&self, name: &str) -> (result: Option<&MacroDefinition>)
        requires
            self.well_formed(),
        ensures
            match result {
                Some(d) => self.definition(name@) == Some(*d),
                None => self.definition(name@) is None,
            },
    {
        match self.find(name) {
            Ok(i) => {
                proof {
                    lemma_position(self.definitions@, name@, i as int);
                }
                Some(&self.definitions[i])
            },
            Err(p) => {
                proof {
                    if exists|i: int|
                        0 <= i < self.definitions@.len() && (#[trigger] self.definitions@[i]).name@
                            == name@ {
                        let i = choose|i: int|
                            0 <= i < self.definitions@.len() && (#[trigger] self.definitions@[i]).name@
                                == name@;
                        lemma_text_lt_irreflexive(name@);
                    }
                }
                None
            },
        }
    }

    fn is_disabled(&self, name: &str) -> (result: bool)
        ensures
            result == self.disabled().contains(name@),
    {
        let mut i: usize = 0;
        while i < self.disabled_dynamic.len()
            invariant
                i <= self.disabled_dynamic@.len(),
                forall|j: int| 0 <= j < i ==> (#[trigger] self.disabled_dynamic@[j])@ != name@,
            decreases self.disabled_dynamic.len() - i,
        {
            if str_eq(self.disabled_dynamic[i].as_str(), name) {
                assert(self.disabled_dynamic@[i as int]@ == name@);
                return true;
            }
            i = i + 1;
        }
        false
    }

    /// Whether `name` is a dynamic macro that is still available.
    pub fn dynamic_enabled(&self, name: &str) -> (result: bool)
        ensures
            result == self.dynamic_available(name@),
    {
        is_dynamic_name(name) && !self.is_disabled(name)
    }

    /// Whether `name` is defined, or is an available dynamic macro.
    pub fn contains(&self, name: &str) -> (result: bool)
        requires
            self.well_formed(),
        ensures
            result == (self.definition(name@) is Some || self.dynamic_available(name@)),
    {
        self.get(name).is_some() || self.dynamic_enabled(name)
    }

    fn disable(&mut self, name: &str)
        ensures
            final(self).definitions@ == old(self).definitions@,
            final(self).counter == old(self).counter,
            final(self).disabled() == if dynamic_name(name@) {
                old(self).disabled().insert(name@)
            } else {
                old(self).disabled()
            },
    {
        if is_dynamic_name(name) {
            let ghost before = self.disabled();
            self.disabled_dynamic.push(name.to_owned());
            assert forall|n: Seq<char>| #[trigger] self.disabled().contains(n) == before.insert(
                name@,
            ).contains(n) by {
                if n == name@ {
                    assert(self.disabled_dynamic@[self.disabled_dynamic@.len() - 1]@ == n);
                } else if before.contains(n) {
                    let i = choose|i: int|
                        0 <= i < old(self).disabled_dynamic@.len() && (#[trigger] old(self).disabled_dynamic@[i])@ == n;
                    assert(self.disabled_dynamic@[i] == old(self).disabled_dynamic@[i]);
                } else if self.disabled().contains(n) {
                    let i = choose|i: int|
                        0 <= i < self.disabled_dynamic@.len() && (#[trigger] self.disabled_dynamic@[i])@
                            == n;
                    if i < old(self).disabled_dynamic@.len() {
                        assert(self.disabled_dynamic@[i] == old(self).disabled_dynamic@[i]);
                    }
                }
            }
            assert(self.disabled() =~= before.insert(name@));
        }
    }
}

impl MacroTable {
    /// Defines a macro: a new name is inserted, an equivalent definition
    /// keeps the old one, and a different one replaces it. Defining a
    /// dynamic macro switches its built-in value off.
    pub fn define(&mut self, definition: MacroDefinition) -> (result: DefineResult)
        requires
            old(self).well_formed(),
        ensures
            final(self).well_formed(),
            final(self).counter_value() == old(self).counter_value(),
            final(self).disabled() == if dynamic_name(definition.name@) {
                old(self).disabled().insert(definition.name@)
            } else {
                old(self).disabled()
            },
            match old(self).definition(definition.name@) {
                None => result is Inserted && final(self).definition(definition.name@) == Some(
                    definition,
                ),
                Some(previous) => if equivalent(previous, definition) {
                    result is Equivalent && final(self).definition(definition.name@) == Some(
                        previous,
                    )
                } else {
                    result matches DefineResult::Replaced(p) && p == previous && final(self).definition(definition.name@) == Some(definition)
                },
            },
            forall|n: Seq<char>|
                n != definition.name@ ==> #[trigger] final(self).definition(n) == old(self).definition(n),
    {
        self.disable(definition.name.as_str());
        let ghost defs = self.definitions@;
        match self.find(definition.name.as_str()) {
            Ok(i) => {
                proof {
                    lemma_position(defs, definition.name@, i as int);
                }
                if definitions_equivalent(&self.definitions[i], &definition) {
                    DefineResult::Equivalent
                } else {
                    let previous = self.definitions.remove(i);
                    self.definitions.insert(i, definition);
                    proof {
                        assert(self.definitions@ =~= defs.update(i as int, definition));
                        lemma_update_lookup(defs, i as int, definition);
                    }
                    DefineResult::Replaced(previous)
                }
            },
            Err(p) => {
                proof {
                    assert forall|j: int| 0 <= j < defs.len() implies (#[trigger] defs[j]).name@
                        != definition.name@ by {
                        lemma_text_lt_irreflexive(definition.name@);
                    }
                    lemma_absent(defs, definition.name@);
                    lemma_insert_lookup(defs, p as int, definition);
                }
                self.definitions.insert(p, definition);
                DefineResult::Inserted
            },
        }
    }

    /// Undefines a macro, returning its definition; undefining a dynamic
    /// macro switches its built-in value off.
    pub fn remove(&mut self, name: &str) -> (result: Option<MacroDefinition>)
        requires
            old(self).well_formed(),
        ensures
            final(self).well_formed(),
            result == old(self).definition(name@),
            final(self).definition(name@) is None,
            forall|n: Seq<char>| n != name@ ==> #[trigger] final(self).definition(n) == old(self).definition(n),
            final(self).counter_value() == old(self).counter_value(),
            final(self).disabled() == if dynamic_name(name@) {
                old(self).disabled().insert(name@)
            } else {
                old(self).disabled()
            },
    {
        self.disable(name);
        let ghost defs = self.definitions@;
        match self.find(name) {
            Ok(i) => {
                proof {
                    lemma_position(defs, name@, i as int);
                    lemma_remove_lookup(defs, i as int);
                }
                Some(self.definitions.remove(i))
            },
            Err(p) => {
                proof {
                    assert forall|j: int| 0 <= j < defs.len() implies (#[trigger] defs[j]).name@
                        != name@ by {
                        lemma_text_lt_irreflexive(name@);
                    }
                    lemma_absent(defs, name@);
                }
                None
            },
        }
    }

    /// The next `__COUNTER__` value; the counter stops at its maximum.
    pub fn next_counter(&mut self) -> (result: u64)
        requires
            old(self).well_formed(),
        ensures
            final(self).well_formed(),
            result == old(self).counter_value(),
            final(self).counter_value() == old(self).counter_value().saturating_add(1),
            forall|n: Seq<char>| #[trigger] final(self).definition(n) == old(self).definition(n),
            final(self).disabled() == old(self).disabled(),
    {
        let value = self.counter;
        self.counter = self.counter.saturating_add(1);
        value
    }

    /// The definitions in name order.
    pub fn definitions(&self) -> (result: &[MacroDefinition])
        ensures
            result@ == self.ordered_definitions(),
    {
        self.definitions.as_slice()
    }
}

} // verus!

verus! {

/// Every definition is equivalent to itself, so defining a macro twice the
/// same way is never a redefinition.
pub proof fn lemma_equivalent_reflexive(d: MacroDefinition)
    ensures
        equivalent(d, d),
{
}

/// Equivalence of definitions does not depend on their order.
pub proof fn lemma_equivalent_symmetric(a: MacroDefinition, b: MacroDefinition)
    requires
        equivalent(a, b),
    ensures
        equivalent(b, a),
{
    assert forall|i: int| 0 <= i < b.replacement.len() implies {
        let l = #[trigger] b.replacement@[i];
        let r = a.replacement@[i];
        l.kind == r.kind && l.spelling@ == r.spelling@ && (i == 0 || l.leading_space == r.leading_space)
    } by {
        assert(a.replacement@[i].spelling@ == b.replacement@[i].spelling@);
    }
}

} // verus!

verus! {

/* Stringizing, quoting and `_Pragma` operators */

pub open spec fn is_literal_kind(kind: PpTokenKind) -> bool {
    kind == PpTokenKind::StringLiteral || kind == PpTokenKind::CharacterConstant
}

/// A character of a literal's spelling inside a stringized argument: a
/// backslash or a quote gets a backslash before it.
pub open spec fn literal_escape(c: char) -> Seq<char> {
    if c == '\\' || c == '"' {
        seq!['\\', c]
    } else {
        seq![c]
    }
}

/// A token's spelling inside a stringized argument: escaped for string
/// literals and character constants, as it is otherwise.
pub open spec fn escaped_spelling(s: Seq<char>, literal: bool) -> Seq<char>
    decreases s.len(),
{
    if s.len() == 0 {
        seq![]
    } else {
        escaped_spelling(s.drop_last(), literal) + if literal {
            literal_escape(s.last())
        } else {
            seq![s.last()]
        }
    }
}

/// The tokens' spellings as `#` joins them: a space where a token after the
/// first had whitespace before it.
pub open spec fn stringize_body(tokens: Seq<PpToken>) -> Seq<char>
    decreases tokens.len(),
{
    if tokens.len() == 0 {
        seq![]
    } else {
        let t = tokens.last();
        let space: Seq<char> = if tokens.len() > 1 && t.leading_space {
            seq![' ']
        } else {
            seq![]
        };
        stringize_body(tokens.drop_last()) + space + escaped_spelling(
            t.spelling@,
            is_literal_kind(t.kind),
        )
    }
}

pub open spec fn stringized(tokens: Seq<PpToken>) -> Seq<char> {
    seq!['"'] + stringize_body(tokens) + seq!['"']
}

fn push_escaped(output: &mut Vec<char>, spelling: &str, literal: bool)
    ensures
        final(output)@ == old(output)@ + escaped_spelling(spelling@, literal),
{
    let s = chars_of(spelling);
    let ghost start = output@;
    let mut i: usize = 0;
    assert(s@.take(0) =~= Seq::<char>::empty());
    assert(start + seq![] =~= start);
    while i < s.len()
        invariant
            i <= s@.len(),
            s@ == spelling@,
            output@ == start + escaped_spelling(s@.take(i as int), literal),
        decreases s.len() - i,
    {
        assert(s@.take(i + 1).drop_last() =~= s@.take(i as int));
        let c = s[i];
        if literal && (c == '\\' || c == '"') {
            output.push('\\');
        }
        output.push(c);
        assert(output@ =~= start + escaped_spelling(s@.take(i + 1), literal));
        i = i + 1;
    }
    assert(s@.take(s@.len() as int) =~= s@);
}

/// The `#` operator: the tokens' spellings in one string literal.
pub fn stringize(tokens: &[PpToken]) -> (result: String)
    ensures
        result@ == stringized(tokens@),
{
    let mut output: Vec<char> = Vec::new();
    output.push('"');
    let mut i: usize = 0;
    assert(tokens@.take(0) =~= Seq::<PpToken>::empty());
    while i < tokens.len()
        invariant
            i <= tokens@.len(),
            output@ == seq!['"'] + stringize_body(tokens@.take(i as int)),
        decreases tokens.len() - i,
    {
        let ghost prefix = tokens@.take(i + 1);
        assert(prefix.drop_last() =~= tokens@.take(i as int));
        assert(prefix.last() == tokens@[i as int]);
        let t = &tokens[i];
        if i > 0 && t.leading_space {
            output.push(' ');
        }
        let literal = t.kind == PpTokenKind::StringLiteral || t.kind == PpTokenKind::CharacterConstant;
        push_escaped(&mut output, t.spelling.as_str(), literal);
        assert(output@ =~= seq!['"'] + stringize_body(prefix));
        i = i + 1;
    }
    assert(tokens@.take(tokens@.len() as int) =~= tokens@);
    output.push('"');
    string_from_chars(output.as_slice())
}

/// A character inside a quoted string: backslash, quote and newline
/// escaped.
pub open spec fn quote_escape(c: char) -> Seq<char> {
    if c == '\\' {
        seq!['\\', '\\']
    } else if c == '"' {
        seq!['\\', '"']
    } else if c == '\n' {
        seq!['\\', 'n']
    } else {
        seq![c]
    }
}

pub open spec fn quoted_body(s: Seq<char>) -> Seq<char>
    decreases s.len(),
{
    if s.len() == 0 {
        seq![]
    } else {
        quoted_body(s.drop_last()) + quote_escape(s.last())
    }
}

pub open spec fn quoted(s: Seq<char>) -> Seq<char> {
    seq!['"'] + quoted_body(s) + seq!['"']
}

/// `text` as a string literal.
pub fn quote_string(text: &str) -> (result: String)
    ensures
        result@ == quoted(text@),
{
    let s = chars_of(text);
    let mut output: Vec<char> = Vec::new();
    output.push('"');
    let mut i: usize = 0;
    assert(s@.take(0) =~= Seq::<char>::empty());
    while i < s.len()
        invariant
            i <= s@.len(),
            s@ == text@,
            output@ == seq!['"'] + quoted_body(s@.take(i as int)),
        decreases s.len() - i,
    {
        assert(s@.take(i + 1).drop_last() =~= s@.take(i as int));
        let c = s[i];
        if c == '\\' {
            output.push('\\');
            output.push('\\');
        } else if c == '"' {
            output.push('\\');
            output.push('"');
        } else if c == '\n' {
            output.push('\\');
            output.push('n');
        } else {
            output.push(c);
        }
        assert(output@ =~= seq!['"'] + quoted_body(s@.take(i + 1)));
        i = i + 1;
    }
    assert(s@.take(s@.len() as int) =~= s@);
    output.push('"');
    string_from_chars(output.as_slice())
}

/// One character of a `_Pragma` string: a backslash before a quote or a
/// backslash is dropped, before anything else kept; `None` where a
/// backslash ends the string.
pub open spec fn unescape_step(s: Seq<char>, i: int) -> Option<(Seq<char>, int)> {
    if s[i] != '\\' {
        Some((seq![s[i]], 1))
    } else if i + 1 >= s.len() {
        None
    } else if s[i + 1] == '"' || s[i + 1] == '\\' {
        Some((seq![s[i + 1]], 2))
    } else {
        Some((seq!['\\', s[i + 1]], 2))
    }
}

pub open spec fn unescape_scan(s: Seq<char>, i: int, done: Seq<char>) -> Option<Seq<char>>
    decreases s.len() - i,
{
    if i < 0 || i >= s.len() {
        Some(done)
    } else {
        match unescape_step(s, i) {
            None => None,
            Some(next) => unescape_scan(s, i + next.1, done + next.0),
        }
    }
}

/// The text a `_Pragma` operand stands for, or why it has none.
pub open spec fn unquoted_pragma(spelling: Seq<char>) -> Result<Seq<char>, Seq<char>> {
    if spelling.len() >= 2 && spelling[0] == '"' && spelling.last() == '"' {
        match unescape_scan(spelling.subrange(1, spelling.len() - 1), 0, seq![]) {
            Some(text) => Ok(text),
            None => Err("incomplete escape in _Pragma string"@),
        }
    } else {
        Err("invalid _Pragma string literal"@)
    }
}

/// The text of a `_Pragma` string literal: its quotes removed and its
/// escaped quotes and backslashes undone.
pub fn unquote_pragma(spelling: &str) -> (result: Result<String, &'static str>)
    ensures
        match result {
            Ok(text) => unquoted_pragma(spelling@) == Ok::<Seq<char>, Seq<char>>(text@),
            Err(message) => unquoted_pragma(spelling@) == Err::<Seq<char>, Seq<char>>(message@),
        },
{
    let s = chars_of(spelling);
    if s.len() < 2 || s[0] != '"' || s[s.len() - 1] != '"' {
        return Err("invalid _Pragma string literal");
    }
    let ghost body = s@.subrange(1, s@.len() - 1);
    let end = s.len() - 1;
    let mut output: Vec<char> = Vec::new();
    let mut i: usize = 1;
    assert(output@ =~= Seq::<char>::empty());
    while i < end
        invariant
            1 <= i <= end,
            end == s@.len() - 1,
            s@ == spelling@,
            s@.len() >= 2,
            s@[0] == '"',
            s@[end as int] == '"',
            body == s@.subrange(1, end as int),
            unescape_scan(body, 0, seq![]) == unescape_scan(body, i - 1, output@),
        decreases end - i,
    {
        let c = s[i];
        assert(body[i - 1] == c);
        let ghost before = output@;
        if c != '\\' {
            output.push(c);
            assert(unescape_step(body, i - 1) == Some((seq![c], 1int)));
            assert(output@ =~= before + seq![c]);
            i = i + 1;
        } else if i + 1 >= end {
            assert(unescape_step(body, i - 1) is None);
            assert(unescape_scan(body, i - 1, output@) is None);
            return Err("incomplete escape in _Pragma string");
        } else {
            let d = s[i + 1];
            assert(body[i as int] == d);
            if d == '"' || d == '\\' {
                output.push(d);
                assert(unescape_step(body, i - 1) == Some((seq![d], 2int)));
                assert(output@ =~= before + seq![d]);
            } else {
                output.push('\\');
                output.push(d);
                assert(unescape_step(body, i - 1) == Some((seq!['\\', d], 2int)));
                assert(output@ =~= before + seq!['\\', d]);
            }
            i = i + 2;
        }
    }
    Ok(string_from_chars(output.as_slice()))
}

/// Whether a `_Pragma` operator begins at `i`: the identifier and an
/// opening parenthesis.
pub open spec fn pragma_operator_at(tokens: Seq<PpToken>, i: int) -> bool {
    &&& tokens[i].kind == PpTokenKind::Identifier
    &&& identifier_name(tokens[i]) == "_Pragma"@
    &&& i + 1 < tokens.len()
    &&& tokens[i + 1].spelling@ == "("@
}

/// Whether the operator at `i` has its one operand: a string literal and the
/// closing parenthesis.
pub open spec fn pragma_operand_at(tokens: Seq<PpToken>, i: int) -> bool {
    &&& i + 3 < tokens.len()
    &&& tokens[i + 2].kind == PpTokenKind::StringLiteral
    &&& tokens[i + 3].spelling@ == ")"@
}

pub open spec fn pragma_error(message: Seq<char>, span: Span) -> DiagnosticView {
    DiagnosticView { code: "CCC1109"@, message, span: Some(span) }
}

/// The tokens kept, the pragmas found with the count of tokens kept before
/// each, and the diagnostics.
pub type PragmaScan = (
    Seq<(PpTokenKind, Span, Seq<char>, bool, bool, usize, bool)>,
    Seq<(int, Seq<char>, Span)>,
    Seq<DiagnosticView>,
);

/// One step over the tokens: a well-formed operator is consumed whole and
/// yields its pragma, or the error on its operand; a `_Pragma` without its
/// operand is kept and diagnosed; any other token is kept.
pub open spec fn pragma_step(tokens: Seq<PpToken>, i: int, state: PragmaScan) -> (PragmaScan, int) {
    let (kept, pragmas, diagnostics) = state;
    if pragma_operator_at(tokens, i) && pragma_operand_at(tokens, i) {
        match unquoted_pragma(tokens[i + 2].spelling@) {
            Ok(text) => ((kept, pragmas.push((kept.len() as int, text, tokens[i].span)), diagnostics), 4),
            Err(message) => (
                (kept, pragmas, diagnostics.push(pragma_error(message, tokens[i + 2].span))),
                4,
            ),
        }
    } else if pragma_operator_at(tokens, i) {
        (
            (
                kept.push(token_fields(tokens[i])),
                pragmas,
                diagnostics.push(
                    pragma_error("_Pragma requires one string literal operand"@, tokens[i].span),
                ),
            ),
            1,
        )
    } else {
        ((kept.push(token_fields(tokens[i])), pragmas, diagnostics), 1)
    }
}

pub open spec fn pragma_scan(tokens: Seq<PpToken>, i: int, state: PragmaScan) -> PragmaScan
    decreases tokens.len() - i,
{
    if i < 0 || i >= tokens.len() {
        state
    } else {
        let next = pragma_step(tokens, i, state);
        pragma_scan(tokens, i + next.1, next.0)
    }
}

pub open spec fn pragma_views(pragmas: Seq<(usize, String, Span)>) -> Seq<(int, Seq<char>, Span)> {
    pragmas.map_values(|p: (usize, String, Span)| (p.0 as int, p.1@, p.2))
}

fn pragma_diagnostic(message: String, span: Span) -> (result: PpDiagnostic)
    ensures
        diagnostic_view(result) == pragma_error(message@, span),
        plain_error(result),
{
    PpDiagnostic {
        severity: PpSeverity::Error,
        code: "CCC1109",
        message,
        span: Some(span),
        category: PpDiagnosticCategory::General,
    }
}

/// Takes the `_Pragma` operators out of `tokens`: each pragma's text, with
/// the number of tokens kept before it and the operator's span, and an
/// error where an operand is malformed.
pub fn parse_pragma_operators(tokens: Vec<PpToken>) -> (result: (
    Vec<PpToken>,
    Vec<(usize, String, Span)>,
    Vec<PpDiagnostic>,
))
    ensures
        (tokens_fields(result.0@), pragma_views(result.1@), diagnostic_views(result.2@))
            == pragma_scan(tokens@, 0, (seq![], seq![], seq![])),
        forall|k: int| 0 <= k < result.2@.len() ==> plain_error(#[trigger] result.2@[k]),
{
    let mut kept: Vec<PpToken> = Vec::new();
    let mut pragmas: Vec<(usize, String, Span)> = Vec::new();
    let mut diagnostics: Vec<PpDiagnostic> = Vec::new();
    let mut i: usize = 0;
    assert(tokens_fields(kept@) =~= seq![]);
    assert(pragma_views(pragmas@) =~= seq![]);
    assert(diagnostic_views(diagnostics@) =~= seq![]);
    while i < tokens.len()
        invariant
            i <= tokens@.len(),
            pragma_scan(tokens@, 0, (seq![], seq![], seq![])) == pragma_scan(
                tokens@,
                i as int,
                (tokens_fields(kept@), pragma_views(pragmas@), diagnostic_views(diagnostics@)),
            ),
            forall|k: int| 0 <= k < diagnostics@.len() ==> plain_error(#[trigger] diagnostics@[k]),
        decreases tokens.len() - i,
    {
        let ghost state = (tokens_fields(kept@), pragma_views(pragmas@), diagnostic_views(diagnostics@));
        let ghost kept_before = kept@;
        let ghost pragmas_before = pragmas@;
        let ghost diagnostics_before = diagnostics@;
        let operator = tokens[i].kind == PpTokenKind::Identifier && str_eq(
            tokens[i].identifier_key().as_str(),
            "_Pragma",
        ) && i + 1 < tokens.len() && str_eq(tokens[i + 1].spelling.as_str(), "(");
        assert(operator == pragma_operator_at(tokens@, i as int));
        let operand = operator && tokens.len() - i > 3 && tokens[i + 2].kind
            == PpTokenKind::StringLiteral && str_eq(tokens[i + 3].spelling.as_str(), ")");
        if operand {
            assert(pragma_operand_at(tokens@, i as int));
            match unquote_pragma(tokens[i + 2].spelling.as_str()) {
                Ok(text) => {
                    pragmas.push((kept.len(), text, tokens[i].span));
                    assert(pragma_views(pragmas@) =~= pragma_views(pragmas_before).push(
                        (kept@.len() as int, text@, tokens@[i as int].span),
                    ));
                },
                Err(message) => {
                    let d = pragma_diagnostic(message.to_string(), tokens[i + 2].span);
                    diagnostics.push(d);
                    assert(diagnostic_views(diagnostics@) =~= diagnostic_views(
                        diagnostics_before,
                    ).push(pragma_error(message@, tokens@[i + 2].span)));
                },
            }
            assert(tokens_fields(kept@) =~= state.0);
            i = i + 4;
        } else {
            if operator {
                let d = pragma_diagnostic(
                    "_Pragma requires one string literal operand".to_string(),
                    tokens[i].span,
                );
                diagnostics.push(d);
                assert(diagnostic_views(diagnostics@) =~= diagnostic_views(diagnostics_before).push(
                    pragma_error("_Pragma requires one string literal operand"@, tokens@[i as int].span),
                ));
            }
            kept.push(duplicate_token(&tokens[i]));
            assert(tokens_fields(kept@) =~= tokens_fields(kept_before).push(
                token_fields(tokens@[i as int]),
            ));
            i = i + 1;
        }
    }
    (kept, pragmas, diagnostics)
}

/* Arguments */

/// The position of the parameter an identifier token names, the first where
/// a name repeats.
pub fn parameter_index(token: &PpToken, parameters: &[String]) -> (result: Option<usize>)
    ensures
        match result {
            Some(i) => {
                &&& token.kind == PpTokenKind::Identifier
                &&& i < parameters@.len()
                &&& parameters@[i as int]@ == identifier_name(*token)
                &&& forall|j: int| 0 <= j < i ==> parameters@[j]@ != identifier_name(*token)
            },
            None => token.kind != PpTokenKind::Identifier || forall|j: int|
                0 <= j < parameters@.len() ==> parameters@[j]@ != identifier_name(*token),
        },
{
    if token.kind != PpTokenKind::Identifier {
        return None;
    }
    let key = token.identifier_key();
    let mut i: usize = 0;
    while i < parameters.len()
        invariant
            i <= parameters@.len(),
            token.kind == PpTokenKind::Identifier,
            key@ == identifier_name(*token),
            forall|j: int| 0 <= j < i ==> parameters@[j]@ != key@,
        decreases parameters.len() - i,
    {
        if str_eq(parameters[i].as_str(), key.as_str()) {
            return Some(i);
        }
        i = i + 1;
    }
    None
}

pub open spec fn comma_at(span: Span) -> (PpTokenKind, Span, Seq<char>, bool, bool, usize, bool) {
    (PpTokenKind::Punctuator, span, ","@, false, false, 1usize, false)
}

/// The arguments' tokens in order, a comma made at `span` between two.
pub open spec fn joined_arguments(arguments: Seq<Seq<PpToken>>, span: Span) -> Seq<
    (PpTokenKind, Span, Seq<char>, bool, bool, usize, bool),
>
    decreases arguments.len(),
{
    if arguments.len() == 0 {
        seq![]
    } else {
        let separator: Seq<(PpTokenKind, Span, Seq<char>, bool, bool, usize, bool)> = if arguments.len()
            > 1 {
            seq![comma_at(span)]
        } else {
            seq![]
        };
        joined_arguments(arguments.drop_last(), span) + separator + tokens_fields(arguments.last())
    }
}

pub open spec fn argument_views(arguments: Seq<Vec<PpToken>>) -> Seq<Seq<PpToken>> {
    arguments.map_values(|argument: Vec<PpToken>| argument@)
}

/// The arguments of `__VA_ARGS__` as one token list, a comma at the
/// reference token's span between two.
pub fn join_arguments(arguments: &[Vec<PpToken>], reference: &PpToken) -> (result: Vec<PpToken>)
    ensures
        tokens_fields(result@) == joined_arguments(argument_views(arguments@), reference.span),
{
    let ghost all = argument_views(arguments@);
    let mut output: Vec<PpToken> = Vec::new();
    let mut index: usize = 0;
    assert(all.take(0) =~= Seq::<Seq<PpToken>>::empty());
    assert(tokens_fields(output@) =~= seq![]);
    while index < arguments.len()
        invariant
            index <= arguments@.len(),
            all == argument_views(arguments@),
            tokens_fields(output@) == joined_arguments(all.take(index as int), reference.span),
        decreases arguments.len() - index,
    {
        let ghost prefix = all.take(index + 1);
        assert(prefix.drop_last() =~= all.take(index as int));
        assert(prefix.last() == arguments@[index as int]@);
        let ghost start = tokens_fields(output@);
        if index > 0 {
            output.push(PpToken::synthetic(PpTokenKind::Punctuator, reference.span, ",".to_string()));
            proof {
                reveal_strlit(",");
            }
            assert(tokens_fields(output@) =~= start + seq![comma_at(reference.span)]);
        }
        let ghost middle = tokens_fields(output@);
        let argument = &arguments[index];
        let mut k: usize = 0;
        assert(middle + tokens_fields(argument@.take(0)) =~= middle);
        while k < argument.len()
            invariant
                k <= argument@.len(),
                tokens_fields(output@) == middle + tokens_fields(argument@.take(k as int)),
            decreases argument.len() - k,
        {
            let ghost before = output@;
            output.push(duplicate_token(&argument[k]));
            assert(tokens_fields(output@) =~= tokens_fields(before).push(token_fields(argument@[k as int])));
            assert(tokens_fields(argument@.take(k + 1)) =~= tokens_fields(argument@.take(k as int)).push(
                token_fields(argument@[k as int]),
            ));
            k = k + 1;
        }
        assert(argument@.take(argument@.len() as int) =~= argument@);
        assert(tokens_fields(output@) =~= joined_arguments(prefix, reference.span));
        index = index + 1;
    }
    assert(all.take(arguments@.len() as int) =~= all);
    output
}

} // verus!
