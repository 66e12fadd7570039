//! The `#define` directive: its operands parsed into a macro definition, the
//! checks a replacement list must pass, and its installation in the table.

use crate::pp::token::copy_names;
use vstd::prelude::*;

use crate::pp::diagnostic::{PpDiagnostic, PpDiagnosticCategory, PpSeverity};
use crate::pp::macros::{
    equivalent, DefineResult, MacroDefinition, MacroForm, MacroTable, string_seq,
};
use crate::pp::token::{canonical_identifier, PpToken, PpTokenKind, Span};
use crate::text::str_eq;

verus! {

/// The name a token stands for: its canonical identifier, or its spelling.
pub open spec fn name_of(t: PpToken) -> Seq<char> {
    match canonical_identifier(t.spelling@) {
        Some(key) => key,
        None => t.spelling@,
    }
}

pub open spec fn spelled(ops: Seq<PpToken>, i: int, spelling: Seq<char>) -> bool {
    0 <= i < ops.len() && ops[i].spelling@ == spelling
}

/// How a parameter list ends: its parameters, whether it is variadic, where
/// the replacement list starts, and the name a GNU named variadic parameter
/// gives the variable arguments.
pub struct ParameterList {
    pub parameters: Seq<Seq<char>>,
    pub variadic: bool,
    pub replacement_start: int,
    pub named_variadic: Option<Seq<char>>,
}

/// An error of a `#define`: its code and message.
pub struct DefineError {
    pub code: Seq<char>,
    pub message: Seq<char>,
}

/// The parameter list from `index` on, after the parameters `params`.
pub open spec fn parse_parameters(
    ops: Seq<PpToken>,
    gnu: bool,
    index: int,
    params: Seq<Seq<char>>,
) -> Result<ParameterList, DefineError>
    decreases ops.len() - index,
{
    if index < 0 {
        Err(DefineError { code: "CCC1319"@, message: "expected macro parameter name"@ })
    } else if spelled(ops, index, "..."@) {
        if spelled(ops, index + 1, ")"@) {
            Ok(
                ParameterList {
                    parameters: params,
                    variadic: true,
                    replacement_start: index + 2,
                    named_variadic: None,
                },
            )
        } else {
            Err(DefineError { code: "CCC1318"@, message: "'...' must be the final macro parameter"@ })
        }
    } else if !(index < ops.len() && ops[index].kind == PpTokenKind::Identifier) {
        Err(DefineError { code: "CCC1319"@, message: "expected macro parameter name"@ })
    } else {
        let p = name_of(ops[index]);
        if params.contains(p) {
            Err(
                DefineError {
                    code: "CCC1320"@,
                    message: "duplicate macro parameter '"@ + p + "'"@,
                },
            )
        } else if spelled(ops, index + 1, ")"@) {
            Ok(
                ParameterList {
                    parameters: params.push(p),
                    variadic: false,
                    replacement_start: index + 2,
                    named_variadic: None,
                },
            )
        } else if spelled(ops, index + 1, ","@) {
            parse_parameters(ops, gnu, index + 2, params.push(p))
        } else if gnu && spelled(ops, index + 1, "..."@) {
            if spelled(ops, index + 2, ")"@) {
                Ok(
                    ParameterList {
                        parameters: params,
                        variadic: true,
                        replacement_start: index + 3,
                        named_variadic: Some(p),
                    },
                )
            } else {
                Err(
                    DefineError {
                        code: "CCC1318"@,
                        message: "named variadic parameter must be final"@,
                    },
                )
            }
        } else {
            Err(
                DefineError {
                    code: "CCC1321"@,
                    message: "expected ',' or ')' in macro parameter list"@,
                },
            )
        }
    }
}

/// How the operands of `#define` parse: an object-like macro (`None`), or a
/// parameter list; or the error.
pub open spec fn define_form(ops: Seq<PpToken>, gnu: bool) -> Result<Option<ParameterList>, DefineError> {
    if !(ops.len() > 0 && ops[0].kind == PpTokenKind::Identifier) {
        Err(DefineError { code: "CCC1317"@, message: "#define requires a macro name"@ })
    } else if spelled(ops, 1, "("@) && !ops[1].leading_space {
        if spelled(ops, 2, ")"@) {
            Ok(
                Some(
                    ParameterList {
                        parameters: Seq::empty(),
                        variadic: false,
                        replacement_start: 3,
                        named_variadic: None,
                    },
                ),
            )
        } else {
            match parse_parameters(ops, gnu, 2, Seq::empty()) {
                Ok(list) => Ok(Some(list)),
                Err(error) => Err(error),
            }
        }
    } else {
        Ok(None)
    }
}

/// Whether `t` is `source` with, when `named` names it, the spelling
/// `__VA_ARGS__`.
pub open spec fn replaced_token(t: PpToken, source: PpToken, named: Option<Seq<char>>) -> bool {
    &&& t.kind == source.kind
    &&& t.span == source.span
    &&& t.leading_space == source.leading_space
    &&& t.at_start_of_line == source.at_start_of_line
    &&& t.logical_line == source.logical_line
    &&& t.is_system_header == source.is_system_header
    &&& t.spelling@ == match named {
        Some(n) => if source.kind == PpTokenKind::Identifier && name_of(source) == n {
            "__VA_ARGS__"@
        } else {
            source.spelling@
        },
        None => source.spelling@,
    }
}

/// Whether `d` is the definition the operands `ops` give with the form `form`.
pub open spec fn defined_as(d: MacroDefinition, ops: Seq<PpToken>, form: Option<ParameterList>) -> bool {
    let start: int = match form {
        Some(list) => list.replacement_start,
        None => 1,
    };
    let named = match form {
        Some(list) => list.named_variadic,
        None => None,
    };
    &&& d.name@ == name_of(ops[0])
    &&& d.definition_span == ops[0].span
    &&& !d.predefined
    &&& match form {
        None => d.form == MacroForm::Object,
        Some(list) => d.form matches MacroForm::Function { parameters, variadic } && string_seq(
            parameters@,
        ) == list.parameters && variadic == list.variadic,
    }
    &&& 0 <= start <= ops.len()
    &&& d.replacement.len() == ops.len() - start
    &&& forall|k: int|
        0 <= k < d.replacement.len() ==> replaced_token(
            #[trigger] d.replacement@[k],
            ops[start + k],
            named,
        )
}

fn name_key(t: &PpToken) -> (result: String)
    ensures
        result@ == name_of(*t),
{
    t.identifier_key()
}

fn spelled_exec(ops: &[PpToken], i: usize, spelling: &str) -> (result: bool)
    ensures
        result == spelled(ops@, i as int, spelling@),
{
    i < ops.len() && str_eq(ops[i].spelling.as_str(), spelling)
}

fn contains_string(strings: &Vec<String>, s: &str) -> (result: bool)
    ensures
        result == string_seq(strings@).contains(s@),
{
    let mut i: usize = 0;
    while i < strings.len()
        invariant
            i <= strings.len(),
            forall|j: int| 0 <= j < i ==> (#[trigger] strings@[j])@ != s@,
        decreases strings.len() - i,
    {
        if str_eq(strings[i].as_str(), s) {
            assert(string_seq(strings@)[i as int] == s@);
            return true;
        }
        i = i + 1;
    }
    proof {
        if string_seq(strings@).contains(s@) {
            let j = choose|j: int| 0 <= j < string_seq(strings@).len() && string_seq(strings@)[j] == s@;
            assert(strings@[j]@ == s@);
        }
    }
    false
}

/// A parsed parameter list.
pub struct Parameters {
    pub parameters: Vec<String>,
    pub variadic: bool,
    pub replacement_start: usize,
    pub named_variadic: Option<String>,
}

pub open spec fn option_view(o: Option<String>) -> Option<Seq<char>> {
    match o {
        Some(n) => Some(n@),
        None => None,
    }
}

pub open spec fn parameters_view(p: Parameters) -> ParameterList {
    ParameterList {
        parameters: string_seq(p.parameters@),
        variadic: p.variadic,
        replacement_start: p.replacement_start as int,
        named_variadic: option_view(p.named_variadic),
    }
}

pub open spec fn error_view(e: PpDiagnostic) -> DefineError {
    DefineError { code: e.code@, message: e.message@ }
}

fn define_error(code: &'static str, message: String, span: Option<Span>) -> (result: PpDiagnostic)
    ensures
        result.code == code,
        result.message@ == message@,
        result.span == span,
        result.severity == PpSeverity::Error,
        result.category == PpDiagnosticCategory::General,
{
    PpDiagnostic {
        severity: PpSeverity::Error,
        code,
        message,
        span,
        category: PpDiagnosticCategory::General,
    }
}

fn parse_parameters_exec(ops: &[PpToken], gnu: bool, start: usize) -> (result: Result<
    Parameters,
    PpDiagnostic,
>)
    requires
        ops.len() > 0,
    ensures
        match result {
            Ok(p) => parse_parameters(ops@, gnu, start as int, Seq::empty()) == Ok::<
                ParameterList,
                DefineError,
            >(parameters_view(p)) && p.replacement_start <= ops.len(),
            Err(e) => parse_parameters(ops@, gnu, start as int, Seq::empty()) == Err::<
                ParameterList,
                DefineError,
            >(error_view(e)) && e.span == Some(ops@[0].span) && e.severity == PpSeverity::Error
                && e.category == PpDiagnosticCategory::General,
        },
{
    let span = Some(ops[0].span);
    let mut parameters: Vec<String> = Vec::new();
    let mut index = start;
    assert(string_seq(parameters@) =~= Seq::<Seq<char>>::empty());
    while index <= ops.len()
        invariant
            ops.len() > 0,
            span == Some(ops@[0].span),
            parse_parameters(ops@, gnu, start as int, Seq::empty()) == parse_parameters(
                ops@,
                gnu,
                index as int,
                string_seq(parameters@),
            ),
        decreases ops.len() + 1 - index,
    {
        if spelled_exec(ops, index, "...") {
            if spelled_exec(ops, index + 1, ")") {
                return Ok(Parameters {
                    parameters,
                    variadic: true,
                    replacement_start: index + 2,
                    named_variadic: None,
                });
            }
            return Err(define_error("CCC1318", "'...' must be the final macro parameter".to_owned(), span));
        }
        if !(index < ops.len() && ops[index].kind == PpTokenKind::Identifier) {
            return Err(define_error("CCC1319", "expected macro parameter name".to_owned(), span));
        }
        let p = name_key(&ops[index]);
        if contains_string(&parameters, p.as_str()) {
            let message = crate::text::concat3("duplicate macro parameter '", p.as_str(), "'");
            return Err(define_error("CCC1320", message, span));
        }
        let ghost before = string_seq(parameters@);
        if spelled_exec(ops, index + 1, ")") {
            parameters.push(p);
            assert(string_seq(parameters@) =~= before.push(name_of(ops@[index as int])));
            return Ok(Parameters {
                parameters,
                variadic: false,
                replacement_start: index + 2,
                named_variadic: None,
            });
        } else if spelled_exec(ops, index + 1, ",") {
            parameters.push(p);
            assert(string_seq(parameters@) =~= before.push(name_of(ops@[index as int])));
            index = index + 2;
        } else if gnu && spelled_exec(ops, index + 1, "...") {
            if spelled_exec(ops, index + 2, ")") {
                return Ok(Parameters {
                    parameters,
                    variadic: true,
                    replacement_start: index + 3,
                    named_variadic: Some(p),
                });
            }
            return Err(define_error("CCC1318", "named variadic parameter must be final".to_owned(), span));
        } else {
            return Err(
                define_error("CCC1321", "expected ',' or ')' in macro parameter list".to_owned(), span),
            );
        }
    }
    Err(define_error("CCC1319", "expected macro parameter name".to_owned(), span))
}

fn copy_replacement(ops: &[PpToken], start: usize, named: &Option<String>) -> (result: Vec<PpToken>)
    requires
        start <= ops.len(),
    ensures
        result.len() == ops.len() - start,
        forall|k: int|
            0 <= k < result.len() ==> replaced_token(
                #[trigger] result@[k],
                ops@[start + k],
                option_view(*named),
            ),
{
    let ghost named_view = option_view(*named);
    let mut result: Vec<PpToken> = Vec::new();
    let mut i = start;
    while i < ops.len()
        invariant
            start <= i <= ops.len(),
            result.len() == i - start,
            named_view == option_view(*named),
            forall|k: int|
                0 <= k < result.len() ==> replaced_token(#[trigger] result@[k], ops@[start + k], named_view),
        decreases ops.len() - i,
    {
        let t = &ops[i];
        let rename = match named {
            Some(n) => t.kind == PpTokenKind::Identifier && str_eq(name_key(t).as_str(), n.as_str()),
            None => false,
        };
        let spelling = if rename {
            "__VA_ARGS__".to_owned()
        } else {
            t.spelling.clone()
        };
        result.push(PpToken {
            kind: t.kind,
            span: t.span,
            spelling,
            leading_space: t.leading_space,
            at_start_of_line: t.at_start_of_line,
            logical_line: t.logical_line,
            is_system_header: t.is_system_header,
            hide_set: copy_names(&t.hide_set),
            expansion_depth: t.expansion_depth,
        });
        i = i + 1;
    }
    result
}

/// Parses the operands of `#define` into a definition; `gnu` allows GNU
/// named variadic parameters.
pub fn parse_define(operands: &[PpToken], gnu: bool) -> (result: Result<MacroDefinition, PpDiagnostic>)
    ensures
        match define_form(operands@, gnu) {
            Ok(form) => result matches Ok(d) && defined_as(d, operands@, form),
            Err(error) => result matches Err(e) && error_view(e) == error && e.severity
                == PpSeverity::Error && e.category == PpDiagnosticCategory::General && e.span == if operands.len() > 0 {
                Some(operands@[0].span)
            } else {
                None
            },
        },
{
    if !(operands.len() > 0 && operands[0].kind == PpTokenKind::Identifier) {
        let span = if operands.len() > 0 {
            Some(operands[0].span)
        } else {
            None
        };
        return Err(define_error("CCC1317", "#define requires a macro name".to_owned(), span));
    }
    let name_token = &operands[0];
    let name = name_key(name_token);
    if spelled_exec(operands, 1, "(") && !operands[1].leading_space {
        let list = if spelled_exec(operands, 2, ")") {
            let list = Parameters {
                parameters: Vec::new(),
                variadic: false,
                replacement_start: 3,
                named_variadic: None,
            };
            assert(string_seq(list.parameters@) =~= Seq::<Seq<char>>::empty());
            list
        } else {
            parse_parameters_exec(operands, gnu, 2)?
        };
        let replacement = copy_replacement(operands, list.replacement_start, &list.named_variadic);
        Ok(MacroDefinition {
            name,
            form: MacroForm::Function { parameters: list.parameters, variadic: list.variadic },
            replacement,
            definition_span: name_token.span,
            predefined: false,
        })
    } else {
        let replacement = copy_replacement(operands, 1, &None);
        Ok(MacroDefinition {
            name,
            form: MacroForm::Object,
            replacement,
            definition_span: name_token.span,
            predefined: false,
        })
    }
}

/* Installing a definition */

pub open spec fn is_paste_spelling(t: PpToken) -> bool {
    t.spelling@ == "##"@ || t.spelling@ == "%:%:"@
}

pub open spec fn is_hash_spelling(t: PpToken) -> bool {
    t.spelling@ == "#"@ || t.spelling@ == "%:"@
}

/// A problem of a replacement list: its code, message and span.
pub struct Problem {
    pub code: Seq<char>,
    pub message: Seq<char>,
    pub span: Span,
}

/// The problem of the replacement token `k` of `d`, if it has one.
pub open spec fn token_problem(d: MacroDefinition, k: int) -> Option<Problem> {
    let t = d.replacement@[k];
    let (parameters, variadic, function): (Seq<Seq<char>>, bool, bool) = match d.form {
        MacroForm::Object => (Seq::empty(), false, false),
        MacroForm::Function { parameters, variadic } => (string_seq(parameters@), variadic, true),
    };
    if t.kind == PpTokenKind::Identifier && name_of(t) == "__VA_OPT__"@ {
        Some(
            Problem {
                code: "CCC1111"@,
                message: "__VA_OPT__ is not supported by the selected compatibility profile"@,
                span: t.span,
            },
        )
    } else if t.kind == PpTokenKind::Identifier && name_of(t) == "__VA_ARGS__"@ && !variadic {
        Some(
            Problem {
                code: "CCC1112"@,
                message: "__VA_ARGS__ may only appear in a variadic macro replacement"@,
                span: t.span,
            },
        )
    } else if is_hash_spelling(t) && function && !(k + 1 < d.replacement.len() && d.replacement@[k
        + 1].kind == PpTokenKind::Identifier && (parameters.contains(
        name_of(d.replacement@[k + 1]),
    ) || (variadic && name_of(d.replacement@[k + 1]) == "__VA_ARGS__"@))) {
        Some(
            Problem {
                code: "CCC1106"@,
                message: "'#' must be followed by a macro parameter"@,
                span: t.span,
            },
        )
    } else {
        None
    }
}

/// The first problem of the replacement tokens of `d` from `k` on.
pub open spec fn replacement_problem(d: MacroDefinition, k: int) -> Option<Problem>
    decreases d.replacement.len() - k,
{
    if k < 0 || k >= d.replacement.len() {
        None
    } else {
        match token_problem(d, k) {
            Some(p) => Some(p),
            None => replacement_problem(d, k + 1),
        }
    }
}

/// What keeps `d` from being defined: `##` at either end of its
/// replacement, or the first problem of one of its tokens.
pub open spec fn definition_problem(d: MacroDefinition) -> Option<Problem> {
    if d.replacement.len() > 0 && (is_paste_spelling(d.replacement@[0]) || is_paste_spelling(
        d.replacement@[d.replacement.len() - 1],
    )) {
        Some(
            Problem {
                code: "CCC1107"@,
                message: "'##' cannot appear at either end of a macro replacement"@,
                span: d.definition_span,
            },
        )
    } else {
        replacement_problem(d, 0)
    }
}

pub open spec fn problem_of(e: PpDiagnostic) -> Problem {
    Problem { code: e.code@, message: e.message@, span: e.span->0 }
}

fn token_problem_exec(d: &MacroDefinition, k: usize) -> (result: Option<PpDiagnostic>)
    requires
        k < d.replacement.len(),
    ensures
        match token_problem(*d, k as int) {
            Some(p) => result matches Some(e) && e.span is Some && problem_of(e) == p && e.severity
                == PpSeverity::Error,
            None => result is None,
        },
{
    let t = &d.replacement[k];
    let (function, variadic) = match &d.form {
        MacroForm::Object => (false, false),
        MacroForm::Function { variadic, .. } => (true, *variadic),
    };
    let is_identifier = t.kind == PpTokenKind::Identifier;
    let key = name_key(t);
    if is_identifier && str_eq(key.as_str(), "__VA_OPT__") {
        return Some(define_error(
            "CCC1111",
            "__VA_OPT__ is not supported by the selected compatibility profile".to_owned(),
            Some(t.span),
        ));
    }
    if is_identifier && str_eq(key.as_str(), "__VA_ARGS__") && !variadic {
        return Some(define_error(
            "CCC1112",
            "__VA_ARGS__ may only appear in a variadic macro replacement".to_owned(),
            Some(t.span),
        ));
    }
    if (str_eq(t.spelling.as_str(), "#") || str_eq(t.spelling.as_str(), "%:")) && function {
        let valid = if k + 1 < d.replacement.len() && d.replacement[k + 1].kind
            == PpTokenKind::Identifier {
            let next = name_key(&d.replacement[k + 1]);
            let listed = match &d.form {
                MacroForm::Function { parameters, .. } => contains_string(parameters, next.as_str()),
                MacroForm::Object => false,
            };
            listed || (variadic && str_eq(next.as_str(), "__VA_ARGS__"))
        } else {
            false
        };
        if !valid {
            return Some(define_error(
                "CCC1106",
                "'#' must be followed by a macro parameter".to_owned(),
                Some(t.span),
            ));
        }
    }
    None
}

/// Checks that `d` can be defined.
pub fn check_definition(d: &MacroDefinition) -> (result: Option<PpDiagnostic>)
    ensures
        match definition_problem(*d) {
            Some(p) => result matches Some(e) && e.span is Some && problem_of(e) == p && e.severity
                == PpSeverity::Error,
            None => result is None,
        },
{
    let n = d.replacement.len();
    if n > 0 {
        let first = d.replacement[0].spelling.as_str();
        let last = d.replacement[n - 1].spelling.as_str();
        if str_eq(first, "##") || str_eq(first, "%:%:") || str_eq(last, "##") || str_eq(last, "%:%:") {
            return Some(define_error(
                "CCC1107",
                "'##' cannot appear at either end of a macro replacement".to_owned(),
                Some(d.definition_span),
            ));
        }
    }
    let mut k: usize = 0;
    while k < n
        invariant
            k <= n == d.replacement.len(),
            definition_problem(*d) == replacement_problem(*d, k as int),
        decreases n - k,
    {
        match token_problem_exec(d, k) {
            Some(e) => {
                return Some(e);
            },
            None => {},
        }
        k = k + 1;
    }
    None
}

/// The warning that `definition` replaced the different `previous` one.
pub open spec fn redefinition_warning(e: PpDiagnostic, definition: MacroDefinition) -> bool {
    &&& e.severity == PpSeverity::Warning
    &&& e.code@ == "CCC1110"@
    &&& e.message@ == "macro '"@ + definition.name@ + "' redefined"@
    &&& e.span == Some(definition.definition_span)
    &&& e.category == PpDiagnosticCategory::MacroRedefined
}

/// Installs a parsed definition: a problem of its replacement list is
/// reported and leaves the table unchanged; otherwise it is defined, with a
/// warning when it replaces a different definition.
pub fn install_definition(table: &mut MacroTable, definition: MacroDefinition) -> (result: Option<PpDiagnostic>)
    requires
        old(table).well_formed(),
    ensures
        final(table).well_formed(),
        match definition_problem(definition) {
            Some(p) => result matches Some(e) && e.span is Some && problem_of(e) == p
                && e.severity == PpSeverity::Error && forall|n: Seq<char>| #[trigger] final(table).definition(n)
                == old(table).definition(n),
            None => {
                &&& forall|n: Seq<char>| n != definition.name@ ==> #[trigger] final(table).definition(n)
                    == old(table).definition(n)
                &&& match old(table).definition(definition.name@) {
                    Some(previous) => if equivalent(previous, definition) {
                        result is None && final(table).definition(definition.name@) == Some(previous)
                    } else {
                        result matches Some(e) && redefinition_warning(e, definition) && final(table).definition(definition.name@) == Some(definition)
                    },
                    None => result is None && final(table).definition(definition.name@) == Some(
                        definition,
                    ),
                }
            },
        },
{
    if let Some(problem) = check_definition(&definition) {
        return Some(problem);
    }
    let name = definition.name.clone();
    let span = definition.definition_span;
    match table.define(definition) {
        DefineResult::Replaced(_) => Some(PpDiagnostic {
            severity: PpSeverity::Warning,
            code: "CCC1110",
            message: crate::text::concat3("macro '", name.as_str(), "' redefined"),
            span: Some(span),
            category: PpDiagnosticCategory::MacroRedefined,
        }),
        _ => None,
    }
}

/// Undefines the macro `#undef` names.
pub fn handle_undef(table: &mut MacroTable, operands: &[PpToken], span: Span) -> (result: Option<PpDiagnostic>)
    requires
        old(table).well_formed(),
    ensures
        final(table).well_formed(),
        if operands.len() != 1 || operands@[0].kind != PpTokenKind::Identifier {
            result matches Some(e) && e.code@ == "CCC1322"@ && e.message@
                == "#undef requires exactly one identifier"@ && e.span == Some(span) && forall|
                n: Seq<char>,
            | #[trigger] final(table).definition(n) == old(table).definition(n)
        } else {
            result is None && final(table).definition(name_of(operands@[0])) is None && forall|
                n: Seq<char>,
            | n != name_of(operands@[0]) ==> #[trigger] final(table).definition(n) == old(table).definition(n)
        },
{
    if operands.len() != 1 || operands[0].kind != PpTokenKind::Identifier {
        return Some(define_error("CCC1322", "#undef requires exactly one identifier".to_owned(), Some(span)));
    }
    let key = name_key(&operands[0]);
    table.remove(key.as_str());
    None
}

} // verus!
