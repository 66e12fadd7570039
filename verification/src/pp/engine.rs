//! The records the preprocessor hands on: line markers, diagnostic pragmas
//! and the graph of files it read.

use vstd::prelude::*;

use crate::pp::token::{duplicate_token, token_fields, tokens_fields, PpToken, Span};

verus! {

/// A `# line "file" flags` marker of the preprocessed output.
#[derive(Clone, Debug)]
pub struct LineMarker {
    pub line: usize,
    pub file: String,
    pub flags: Vec<u8>,
}

/// The action of a `#pragma GCC diagnostic`.
#[derive(Clone, Copy, Debug, PartialEq, Eq, Structural)]
pub enum DiagnosticPragmaAction {
    Push,
    Pop,
    Ignored,
    Warning,
    Error,
}

/// A file the translation unit read, and whether it is a system header.
#[derive(Clone, Debug)]
pub struct Dependency {
    pub path: String,
    pub system: bool,
}

/// One `#include` that was followed.
#[derive(Clone, Debug)]
pub struct DependencyEdge {
    pub from: String,
    pub to: String,
    pub spelled: String,
    pub system: bool,
}

/// The files read, in first-read order, and the includes between them.
#[derive(Clone, Debug)]
pub struct DependencyGraph {
    pub files: Vec<Dependency>,
    pub edges: Vec<DependencyEdge>,
}

impl Default for DependencyGraph {
    fn default() -> (result: Self)
        ensures
            result.files@.len() == 0,
            result.edges@.len() == 0,
    {
        DependencyGraph { files: Vec::new(), edges: Vec::new() }
    }
}

impl DependencyGraph {
    /// Records a file and returns its index in the graph.
    pub fn record_file(&mut self, path: String, system: bool) -> (index: usize)
        requires
            old(self).files@.len() < usize::MAX,
        ensures
            index == old(self).files@.len(),
            final(self).files@.len() == old(self).files@.len() + 1,
            final(self).files@.take(index as int) == old(self).files@,
            final(self).files@[index as int].path@ == path@,
            final(self).files@[index as int].system == system,
            final(self).edges@ == old(self).edges@,
    {
        let index = self.files.len();
        self.files.push(Dependency { path, system });
        assert(self.files@.take(index as int) =~= old(self).files@);
        index
    }
}

} // verus!

verus! {

/// A pragma the preprocessor recognized, with where it came from.
#[derive(Clone, Debug)]
pub enum PragmaEvent {
    Once { span: Span },
    SystemHeader { span: Span },
    Diagnostic { action: DiagnosticPragmaAction, option: Option<String>, span: Span },
    GccOptimize { payload: Vec<PpToken>, span: Span },
    Pack { payload: Vec<PpToken>, span: Span },
    Unknown { text: String, span: Span },
}

/// One item of the preprocessed output, in order.
#[derive(Clone, Debug)]
pub enum PpItem {
    Token(PpToken),
    Pragma(PragmaEvent),
    LineMarker(LineMarker),
    Newline,
}

/// A macro defined at the end of preprocessing.
#[derive(Clone, Debug)]
pub struct MacroSnapshotEntry {
    pub name: String,
    pub parameters: Option<Vec<String>>,
    pub variadic: bool,
    pub replacement: Vec<PpToken>,
}

/// The macros defined at the end of preprocessing, in table order.
#[derive(Clone, Debug)]
pub struct MacroSnapshot {
    pub definitions: Vec<MacroSnapshotEntry>,
}

impl Default for MacroSnapshot {
    fn default() -> (result: Self)
        ensures
            result.definitions@.len() == 0,
    {
        MacroSnapshot { definitions: Vec::new() }
    }
}

/// What preprocessing a translation unit yields.
#[derive(Clone, Debug)]
pub struct PreprocessOutput {
    /// The output in order, with its pragma and file events.
    pub items: Vec<PpItem>,
    pub macros: MacroSnapshot,
    pub dependencies: DependencyGraph,
    pub had_errors: bool,
}

impl Default for PreprocessOutput {
    fn default() -> (result: Self)
        ensures
            result.items@.len() == 0,
            result.macros.definitions@.len() == 0,
            result.dependencies.files@.len() == 0,
            result.dependencies.edges@.len() == 0,
            !result.had_errors,
    {
        PreprocessOutput {
            items: Vec::new(),
            macros: MacroSnapshot::default(),
            dependencies: DependencyGraph::default(),
            had_errors: false,
        }
    }
}

/// The tokens among `items`, in order.
pub open spec fn item_tokens(items: Seq<PpItem>) -> Seq<PpToken>
    decreases items.len(),
{
    if items.len() == 0 {
        seq![]
    } else {
        match items.last() {
            PpItem::Token(t) => item_tokens(items.drop_last()).push(t),
            _ => item_tokens(items.drop_last()),
        }
    }
}

impl PreprocessOutput {
    /// The output's tokens, in order, without its events.
    pub fn tokens(&self) -> (result: Vec<PpToken>)
        ensures
            tokens_fields(result@) == tokens_fields(item_tokens(self.items@)),
    {
        let mut output: Vec<PpToken> = Vec::new();
        let mut i: usize = 0;
        assert(self.items@.take(0) =~= Seq::<PpItem>::empty());
        assert(tokens_fields(output@) =~= tokens_fields(item_tokens(self.items@.take(0))));
        while i < self.items.len()
            invariant
                i <= self.items@.len(),
                tokens_fields(output@) == tokens_fields(item_tokens(self.items@.take(i as int))),
            decreases self.items.len() - i,
        {
            let ghost prefix = self.items@.take(i + 1);
            assert(prefix.drop_last() =~= self.items@.take(i as int));
            assert(prefix.last() == self.items@[i as int]);
            let ghost before = output@;
            match &self.items[i] {
                PpItem::Token(t) => {
                    let copy = duplicate_token(t);
                    output.push(copy);
                    let ghost earlier = item_tokens(self.items@.take(i as int));
                    assert(item_tokens(prefix) == earlier.push(*t));
                    assert(tokens_fields(before.push(copy)) =~= tokens_fields(before).push(
                        token_fields(copy),
                    ));
                    assert(tokens_fields(earlier.push(*t)) =~= tokens_fields(earlier).push(
                        token_fields(*t),
                    ));
                },
                _ => {
                    assert(item_tokens(prefix) == item_tokens(self.items@.take(i as int)));
                },
            }
            i = i + 1;
        }
        assert(self.items@.take(self.items@.len() as int) =~= self.items@);
        output
    }
}

} // verus!
