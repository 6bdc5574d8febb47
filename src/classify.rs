use vstd::prelude::*;
use vstd::string::StringExecFns;
use crate::error::MergeError;

verus! {

/// `regex::Regex`, carried opaquely inside `SymbolPattern`.
#[verifier::external_type_specification]
#[verifier::external_body]
pub struct ExRegex(regex::Regex);

/// `regex::Error`, returned by `regex::Regex::new` and mapped to
/// `MergeError::InvalidPattern`.
#[verifier::external_type_specification]
#[verifier::external_body]
pub struct ExRegexError(regex::Error);

/// Whether `regex` accepts `pattern` as a regular expression.
pub uninterp spec fn pattern_compiles(pattern: Seq<char>) -> bool;

/// Whether the regular expression `pattern` matches somewhere inside
/// `haystack` (an unanchored search).
pub uninterp spec fn pattern_finds(pattern: Seq<char>, haystack: Seq<char>) -> bool;

/// Relies on `regex::Regex::new`: it succeeds exactly on the patterns it
/// accepts, which depends on the pattern alone.
#[verifier::external_body]
fn compile_regex(pattern: &str) -> (r: Result<regex::Regex, regex::Error>)
    ensures
        r is Ok == pattern_compiles(pattern@),
{
    regex::Regex::new(pattern)
}

/// A symbol pattern: its source text and the regular expression compiled
/// from it. Only `SymbolPattern::new` builds one, so the two always agree.
pub struct SymbolPattern {
    source: String,
    re: regex::Regex,
}

/// Relies on `regex::Regex::is_match`: an unanchored search for the pattern
/// in `haystack`. The pattern's `re` was compiled from its `source`.
#[verifier::external_body]
fn regex_is_match(pat: &SymbolPattern, haystack: &str) -> (r: bool)
    ensures
        r == pattern_finds(pat@, haystack@),
{
    pat.re.is_match(haystack)
}

impl View for SymbolPattern {
    type V = Seq<char>;

    closed spec fn view(&self) -> Seq<char> {
        self.source@
    }
}

impl SymbolPattern {
    /// Compiles `source`; fails with `InvalidPattern` naming it when it is
    /// not a valid regular expression.
    pub fn new(source: &str) -> (r: Result<SymbolPattern, MergeError>)
        ensures
            r is Ok <==> pattern_compiles(source@),
            r matches Ok(p) ==> p@ == source@,
            r matches Err(e) ==> e matches MergeError::InvalidPattern { pattern } && pattern@
                == source@,
    {
        match compile_regex(source) {
            Ok(re) => Ok(SymbolPattern { source: String::from_str(source), re }),
            Err(_) => Err(MergeError::InvalidPattern { pattern: String::from_str(source) }),
        }
    }

    /// The pattern's source text.
    pub fn as_str(&self) -> (r: &str)
        ensures
            r@ == self@,
    {
        self.source.as_str()
    }

    /// Whether the pattern matches anywhere in `symbol`.
    pub fn is_match(&self, symbol: &str) -> (r: bool)
        ensures
            r == pattern_finds(self@, symbol@),
    {
        regex_is_match(self, symbol)
    }
}

/// Which side of a symbol policy the patterns describe.
#[derive(Debug, Clone, Copy, PartialEq, Eq)]
pub enum ArmergeKeepOrRemove {
    /// Matching symbols stay global; all others are localized.
    KeepSymbols,
    /// Matching symbols are localized; all others stay global.
    RemoveSymbols,
}

impl ArmergeKeepOrRemove {
    /// Whether a symbol stays global under this mode, given whether some
    /// pattern matched it.
    pub fn keeps_when(self, matched: bool) -> (r: bool)
        ensures
            r == match self {
                ArmergeKeepOrRemove::KeepSymbols => matched,
                ArmergeKeepOrRemove::RemoveSymbols => !matched,
            },
    {
        match self {
            ArmergeKeepOrRemove::KeepSymbols => matched,
            ArmergeKeepOrRemove::RemoveSymbols => !matched,
        }
    }
}

/// How a symbol is bound.
#[derive(Debug, Clone, Copy, PartialEq, Eq)]
pub enum Binding {
    Global,
    Weak,
    Local,
}

/// One entry of an object's symbol table.
#[derive(Debug, Clone)]
pub struct Symbol {
    pub name: String,
    pub binding: Binding,
    pub defined: bool,
}

/// Whether some pattern of `patterns` matches `symbol`.
pub open spec fn matches_any(patterns: Seq<Seq<char>>, symbol: Seq<char>) -> bool {
    exists|i: int| 0 <= i < patterns.len() && pattern_finds(#[trigger] patterns[i], symbol)
}

/// Whether the policy keeps a symbol of this name global.
pub open spec fn keeps_global(
    mode: ArmergeKeepOrRemove,
    patterns: Seq<Seq<char>>,
    symbol: Seq<char>,
) -> bool {
    match mode {
        ArmergeKeepOrRemove::KeepSymbols => matches_any(patterns, symbol),
        ArmergeKeepOrRemove::RemoveSymbols => !matches_any(patterns, symbol),
    }
}

/// Whether a symbol may be localized at all: it is defined here and visible
/// outside its object.
pub open spec fn is_candidate(s: Symbol) -> bool {
    s.defined && s.binding != Binding::Local
}

/// The symbol as the policy leaves it.
pub open spec fn classified(mode: ArmergeKeepOrRemove, patterns: Seq<Seq<char>>, s: Symbol) -> (
    Seq<char>,
    Binding,
    bool,
) {
    if is_candidate(s) && !keeps_global(mode, patterns, s.name@) {
        (s.name@, Binding::Local, s.defined)
    } else {
        (s.name@, s.binding, s.defined)
    }
}

/// The plain view of a symbol: name, binding and whether it is defined.
pub open spec fn symbol_view(s: Symbol) -> (Seq<char>, Binding, bool) {
    (s.name@, s.binding, s.defined)
}

/// A symbol policy: a mode and its patterns, in order.
pub struct SymbolPolicy {
    pub mode: ArmergeKeepOrRemove,
    pub patterns: Vec<SymbolPattern>,
}

impl SymbolPolicy {
    /// The sources of the policy's patterns.
    pub open spec fn spec_patterns(&self) -> Seq<Seq<char>> {
        self.patterns@.map_values(|p: SymbolPattern| p@)
    }

    /// Whether some pattern matches `symbol`.
    pub fn matches_any_pattern(&self, symbol: &str) -> (r: bool)
        ensures
            r == matches_any(self.spec_patterns(), symbol@),
    {
        let mut i: usize = 0;
        while i < self.patterns.len()
            invariant
                0 <= i <= self.patterns@.len(),
                forall|j: int| 0 <= j < i ==> !pattern_finds(#[trigger] self.spec_patterns()[j], symbol@),
            decreases self.patterns@.len() - i,
        {
            if self.patterns[i].is_match(symbol) {
                assert(pattern_finds(self.spec_patterns()[i as int], symbol@));
                return true;
            }
            i = i + 1;
        }
        false
    }

    /// Whether a symbol of this name stays global under the policy.
    pub fn keeps(&self, symbol: &str) -> (r: bool)
        ensures
            r == keeps_global(self.mode, self.spec_patterns(), symbol@),
    {
        self.mode.keeps_when(self.matches_any_pattern(symbol))
    }
}

/// The names of the symbols in `syms` (as name, binding and whether
/// defined) that the policy localizes, in table order.
pub open spec fn to_localize(
    mode: ArmergeKeepOrRemove,
    patterns: Seq<Seq<char>>,
    syms: Seq<(Seq<char>, Binding, bool)>,
) -> Seq<Seq<char>>
    decreases syms.len(),
{
    if syms.len() == 0 {
        Seq::empty()
    } else {
        let rest = to_localize(mode, patterns, syms.drop_last());
        let s = syms.last();
        if s.2 && s.1 != Binding::Local && !keeps_global(mode, patterns, s.0) {
            rest.push(s.0)
        } else {
            rest
        }
    }
}

/// Whether `name` belongs to a defined global or weak symbol of `syms`
/// that the policy does not keep global.
pub open spec fn rejected_in(
    mode: ArmergeKeepOrRemove,
    patterns: Seq<Seq<char>>,
    syms: Seq<(Seq<char>, Binding, bool)>,
    name: Seq<char>,
) -> bool {
    exists|i: int|
        0 <= i < syms.len() && (#[trigger] syms[i]).0 == name && syms[i].2 && syms[i].1 != Binding::Local
            && !keeps_global(mode, patterns, syms[i].0)
}

/// The names the policy asks to localize in a table are exactly the names
/// of its defined global or weak symbols that the policy does not keep
/// global: under `KeepSymbols` those no pattern matches, under
/// `RemoveSymbols` those some pattern matches.
pub proof fn lemma_localized_names(
    mode: ArmergeKeepOrRemove,
    patterns: Seq<Seq<char>>,
    syms: Seq<(Seq<char>, Binding, bool)>,
)
    ensures
        forall|i: int|
            0 <= i < syms.len() && (#[trigger] syms[i]).2 && syms[i].1 != Binding::Local
                && !keeps_global(mode, patterns, syms[i].0) ==> to_localize(mode, patterns, syms).contains(
                syms[i].0,
            ),
        forall|k: int|
            0 <= k < to_localize(mode, patterns, syms).len() ==> rejected_in(
                mode,
                patterns,
                syms,
                #[trigger] to_localize(mode, patterns, syms)[k],
            ),
    decreases syms.len(),
{
    if syms.len() > 0 {
        let init = syms.drop_last();
        lemma_localized_names(mode, patterns, init);
        let rest = to_localize(mode, patterns, init);
        let all = to_localize(mode, patterns, syms);
        assert forall|i: int|
            0 <= i < syms.len() && (#[trigger] syms[i]).2 && syms[i].1 != Binding::Local
                && !keeps_global(mode, patterns, syms[i].0) implies all.contains(syms[i].0) by {
            if i < syms.len() - 1 {
                assert(init[i] == syms[i]);
                let j = choose|j: int| 0 <= j < rest.len() && rest[j] == syms[i].0;
                assert(all[j] == rest[j]);
            } else {
                assert(all[all.len() - 1] == syms[i].0);
            }
        }
        assert forall|k: int| 0 <= k < all.len() implies rejected_in(mode, patterns, syms, #[trigger] all[k]) by {
            if k < rest.len() {
                assert(all[k] == rest[k]);
                let i = choose|i: int|
                    0 <= i < init.len() && (#[trigger] init[i]).0 == rest[k] && init[i].2 && init[i].1
                        != Binding::Local && !keeps_global(mode, patterns, init[i].0);
                assert(syms[i] == init[i]);
            } else {
                assert(syms[syms.len() - 1].0 == all[k]);
                let i = syms.len() - 1;
                assert(syms[i].0 == all[k]);
            }
        }
    }
}

/// The views of a symbol table.
pub open spec fn table_view(syms: Seq<Symbol>) -> Seq<(Seq<char>, Binding, bool)> {
    syms.map_values(|s: Symbol| symbol_view(s))
}

impl SymbolPolicy {
    /// The names of the symbols of one object that the policy localizes:
    /// defined global or weak symbols that it does not keep, in table order.
    pub fn symbols_to_localize(&self, symbols: &Vec<Symbol>) -> (r: Vec<String>)
        ensures
            crate::tools::string_views(r@) == to_localize(self.mode, self.spec_patterns(), table_view(symbols@)),
    {
        let mut r: Vec<String> = Vec::new();
        let mut i: usize = 0;
        while i < symbols.len()
            invariant
                0 <= i <= symbols@.len(),
                crate::tools::string_views(r@) == to_localize(
                    self.mode,
                    self.spec_patterns(),
                    table_view(symbols@).take(i as int),
                ),
            decreases symbols@.len() - i,
        {
            let s = &symbols[i];
            assert(table_view(symbols@).take(i + 1).drop_last() =~= table_view(symbols@).take(i as int));
            let ghost prev = r@;
            if s.defined && !matches!(s.binding, Binding::Local) && !self.keeps(s.name.as_str()) {
                r.push(s.name.clone());
                assert(crate::tools::string_views(r@) =~= crate::tools::string_views(prev).push(
                    s.name@,
                ));
            }
            i = i + 1;
        }
        assert(table_view(symbols@).take(i as int) =~= table_view(symbols@));
        r
    }

    /// The symbol table of one object after localization: each symbol the
    /// policy localizes becomes local, everything else is unchanged.
    pub fn localize(&self, symbols: &Vec<Symbol>) -> (r: Vec<Symbol>)
        ensures
            r@.len() == symbols@.len(),
            forall|i: int|
                0 <= i < r@.len() ==> symbol_view(#[trigger] r@[i]) == classified(
                    self.mode,
                    self.spec_patterns(),
                    symbols@[i],
                ),
    {
        let mut r: Vec<Symbol> = Vec::new();
        let mut i: usize = 0;
        while i < symbols.len()
            invariant
                0 <= i <= symbols@.len(),
                r@.len() == i,
                forall|j: int|
                    0 <= j < i ==> symbol_view(#[trigger] r@[j]) == classified(
                        self.mode,
                        self.spec_patterns(),
                        symbols@[j],
                    ),
            decreases symbols@.len() - i,
        {
            let s = &symbols[i];
            let localized = s.defined && !matches!(s.binding, Binding::Local) && !self.keeps(
                s.name.as_str(),
            );
            let binding = if localized {
                Binding::Local
            } else {
                s.binding
            };
            r.push(Symbol { name: s.name.clone(), binding, defined: s.defined });
            i = i + 1;
        }
        r
    }
}

/// Under `KeepSymbols`, a defined global or weak symbol stays global after
/// localization exactly when some pattern matches it, and becomes local
/// otherwise; no symbol is added, removed or renamed.
pub proof fn lemma_keep_symbols(patterns: Seq<Seq<char>>, before: Seq<Symbol>, after: Seq<Symbol>)
    requires
        after.len() == before.len(),
        forall|i: int|
            0 <= i < after.len() ==> symbol_view(#[trigger] after[i]) == classified(
                ArmergeKeepOrRemove::KeepSymbols,
                patterns,
                before[i],
            ),
    ensures
        forall|i: int|
            0 <= i < after.len() ==> (#[trigger] after[i]).name@ == before[i].name@
                && after[i].defined == before[i].defined,
        forall|i: int|
            0 <= i < after.len() && is_candidate(before[i]) ==> ((#[trigger] after[i]).binding
                == before[i].binding <==> matches_any(patterns, before[i].name@)),
        forall|i: int|
            0 <= i < after.len() && is_candidate(before[i]) && !matches_any(
                patterns,
                before[i].name@,
            ) ==> (#[trigger] after[i]).binding == Binding::Local,
        forall|i: int|
            0 <= i < after.len() && !is_candidate(before[i]) ==> (#[trigger] after[i]).binding
                == before[i].binding,
{
    assert forall|i: int| 0 <= i < after.len() implies (#[trigger] after[i]).name@ == before[i].name@
        && after[i].defined == before[i].defined by {
        assert(symbol_view(after[i]) == classified(ArmergeKeepOrRemove::KeepSymbols, patterns, before[i]));
    }
    assert forall|i: int| 0 <= i < after.len() && is_candidate(before[i]) implies ((
    #[trigger] after[i]).binding == before[i].binding <==> matches_any(patterns, before[i].name@)) by {
        assert(symbol_view(after[i]) == classified(ArmergeKeepOrRemove::KeepSymbols, patterns, before[i]));
    }
    assert forall|i: int| 0 <= i < after.len() && is_candidate(before[i]) && !matches_any(patterns, before[i].name@)
        implies (#[trigger] after[i]).binding == Binding::Local by {
        assert(symbol_view(after[i]) == classified(ArmergeKeepOrRemove::KeepSymbols, patterns, before[i]));
    }
    assert forall|i: int| 0 <= i < after.len() && !is_candidate(before[i]) implies (
    #[trigger] after[i]).binding == before[i].binding by {
        assert(symbol_view(after[i]) == classified(ArmergeKeepOrRemove::KeepSymbols, patterns, before[i]));
    }
}

/// Under `RemoveSymbols`, a defined global or weak symbol becomes local after
/// localization exactly when some pattern matches it, and keeps its binding
/// otherwise; no symbol is added, removed or renamed.
pub proof fn lemma_remove_symbols(patterns: Seq<Seq<char>>, before: Seq<Symbol>, after: Seq<Symbol>)
    requires
        after.len() == before.len(),
        forall|i: int|
            0 <= i < after.len() ==> symbol_view(#[trigger] after[i]) == classified(
                ArmergeKeepOrRemove::RemoveSymbols,
                patterns,
                before[i],
            ),
    ensures
        forall|i: int|
            0 <= i < after.len() ==> (#[trigger] after[i]).name@ == before[i].name@
                && after[i].defined == before[i].defined,
        forall|i: int|
            0 <= i < after.len() && is_candidate(before[i]) ==> ((#[trigger] after[i]).binding
                == Binding::Local <==> matches_any(patterns, before[i].name@)),
        forall|i: int|
            0 <= i < after.len() && is_candidate(before[i]) && !matches_any(
                patterns,
                before[i].name@,
            ) ==> (#[trigger] after[i]).binding == before[i].binding,
        forall|i: int|
            0 <= i < after.len() && !is_candidate(before[i]) ==> (#[trigger] after[i]).binding
                == before[i].binding,
{
    assert forall|i: int| 0 <= i < after.len() implies (#[trigger] after[i]).name@ == before[i].name@
        && after[i].defined == before[i].defined by {
        assert(symbol_view(after[i]) == classified(ArmergeKeepOrRemove::RemoveSymbols, patterns, before[i]));
    }
    assert forall|i: int| 0 <= i < after.len() && is_candidate(before[i]) implies ((
    #[trigger] after[i]).binding == Binding::Local <==> matches_any(patterns, before[i].name@)) by {
        assert(symbol_view(after[i]) == classified(ArmergeKeepOrRemove::RemoveSymbols, patterns, before[i]));
    }
    assert forall|i: int| 0 <= i < after.len() && is_candidate(before[i]) && !matches_any(patterns, before[i].name@)
        implies (#[trigger] after[i]).binding == before[i].binding by {
        assert(symbol_view(after[i]) == classified(ArmergeKeepOrRemove::RemoveSymbols, patterns, before[i]));
    }
    assert forall|i: int| 0 <= i < after.len() && !is_candidate(before[i]) implies (
    #[trigger] after[i]).binding == before[i].binding by {
        assert(symbol_view(after[i]) == classified(ArmergeKeepOrRemove::RemoveSymbols, patterns, before[i]));
    }
}

} // verus!
