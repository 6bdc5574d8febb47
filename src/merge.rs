use vstd::prelude::*;
use vstd::string::StringExecFns;
use crate::classify::{ArmergeKeepOrRemove, SymbolPattern, SymbolPolicy, pattern_compiles};
use crate::error::MergeError;
use crate::tools::string_views;

verus! {

/// One object file: its member name and its bytes.
#[derive(Debug, Clone)]
pub struct ObjectMember {
    pub name: String,
    pub data: Vec<u8>,
}

/// The members read from one input archive, with the archive's stem (its
/// file name without directory or extension), used to rename colliding
/// members.
#[derive(Debug, Clone)]
pub struct InputArchive {
    pub stem: String,
    pub members: Vec<ObjectMember>,
}

/// The plain view of a member.
pub open spec fn member_view(m: ObjectMember) -> (Seq<char>, Seq<u8>) {
    (m.name@, m.data@)
}

/// Every member of the inputs with its archive's stem, archive after
/// archive, each in its archive's order.
pub open spec fn all_members(archives: Seq<InputArchive>) -> Seq<(Seq<char>, Seq<u8>, Seq<char>)>
    decreases archives.len(),
{
    if archives.len() == 0 {
        Seq::empty()
    } else {
        let a = archives.last();
        all_members(archives.drop_last()) + a.members@.map_values(
            |m: ObjectMember| (m.name@, m.data@, a.stem@),
        )
    }
}

/// `name` qualified `times` times with the archive stem: `stem-name`,
/// `stem-stem-name`, ...
pub open spec fn qualified(stem: Seq<char>, name: Seq<char>, times: nat) -> Seq<char>
    decreases times,
{
    if times == 0 {
        name
    } else {
        stem + seq!['-'] + qualified(stem, name, (times - 1) as nat)
    }
}

/// `chosen` is the name a member gets when `taken` are the names already
/// used: the least qualification of `name` that is not taken.
pub open spec fn is_disambiguated(
    stem: Seq<char>,
    name: Seq<char>,
    taken: Seq<Seq<char>>,
    chosen: Seq<char>,
) -> bool {
    exists|m: nat|
        {
            &&& chosen == #[trigger] qualified(stem, name, m)
            &&& !taken.contains(chosen)
            &&& forall|k: nat| k < m ==> taken.contains(#[trigger] qualified(stem, name, k))
        }
}

/// The longest length among `s`.
pub open spec fn max_len(s: Seq<Seq<char>>) -> nat
    decreases s.len(),
{
    if s.len() == 0 {
        0
    } else {
        let m = max_len(s.drop_last());
        if s.last().len() > m {
            s.last().len()
        } else {
            m
        }
    }
}

proof fn lemma_max_len(s: Seq<Seq<char>>, x: Seq<char>)
    requires
        s.contains(x),
    ensures
        x.len() <= max_len(s),
    decreases s.len(),
{
    if s.last() != x {
        let i = choose|i: int| 0 <= i < s.len() && s[i] == x;
        assert(s.drop_last()[i] == x);
        lemma_max_len(s.drop_last(), x);
    }
}

fn names_contain(v: &Vec<ObjectMember>, x: &String) -> (r: bool)
    ensures
        r == v@.map_values(|m: ObjectMember| m.name@).contains(x@),
{
    let ghost names = v@.map_values(|m: ObjectMember| m.name@);
    let mut i: usize = 0;
    while i < v.len()
        invariant
            0 <= i <= v@.len(),
            names == v@.map_values(|m: ObjectMember| m.name@),
            forall|j: int| 0 <= j < i ==> names[j] != x@,
        decreases v@.len() - i,
    {
        if v[i].name == *x {
            assert(names[i as int] == x@);
            return true;
        }
        i = i + 1;
    }
    false
}

/// Collects the members of all inputs into one list, archive after archive.
/// A member whose name is already used is renamed by qualifying it with its
/// archive's stem (`stem-name`), as often as needed until the name is free.
/// Contents are never changed.
pub fn gather_members(archives: &Vec<InputArchive>) -> (r: Vec<ObjectMember>)
    ensures
        r@.len() == all_members(archives@).len(),
        forall|k: int|
            0 <= k < r@.len() ==> (#[trigger] r@[k]).data@ == all_members(archives@)[k].1,
        forall|k: int|
            0 <= k < r@.len() ==> is_disambiguated(
                all_members(archives@)[k].2,
                all_members(archives@)[k].0,
                r@.take(k).map_values(|m: ObjectMember| m.name@),
                (#[trigger] r@[k]).name@,
            ),
{
    let mut r: Vec<ObjectMember> = Vec::new();
    let mut a: usize = 0;
    while a < archives.len()
        invariant
            0 <= a <= archives@.len(),
            r@.len() == all_members(archives@.take(a as int)).len(),
            forall|k: int|
                0 <= k < r@.len() ==> (#[trigger] r@[k]).data@ == all_members(archives@.take(a as int))[k].1,
            forall|k: int|
                0 <= k < r@.len() ==> is_disambiguated(
                    all_members(archives@.take(a as int))[k].2,
                    all_members(archives@.take(a as int))[k].0,
                    r@.take(k).map_values(|m: ObjectMember| m.name@),
                    (#[trigger] r@[k]).name@,
                ),
        decreases archives@.len() - a,
    {
        let arch = &archives[a];
        assert(archives@.take(a + 1).drop_last() =~= archives@.take(a as int));
        let ghost before = all_members(archives@.take(a as int));
        let ghost here = arch.members@.map_values(|m: ObjectMember| (m.name@, m.data@, arch.stem@));
        assert(all_members(archives@.take(a + 1)) == before + here);
        let ghost base = r@.len();
        let mut i: usize = 0;
        while i < arch.members.len()
            invariant
                0 <= i <= arch.members@.len(),
                a < archives@.len(),
                arch == archives@[a as int],
                here == arch.members@.map_values(|m: ObjectMember| (m.name@, m.data@, arch.stem@)),
                base == before.len(),
                r@.len() == base + i,
                forall|k: int| 0 <= k < r@.len() ==> (#[trigger] r@[k]).data@ == (before + here)[k].1,
                forall|k: int|
                    0 <= k < r@.len() ==> is_disambiguated(
                        (before + here)[k].2,
                        (before + here)[k].0,
                        r@.take(k).map_values(|m: ObjectMember| m.name@),
                        (#[trigger] r@[k]).name@,
                    ),
            decreases arch.members@.len() - i,
        {
            let member = &arch.members[i];
            let ghost taken = r@.map_values(|m: ObjectMember| m.name@);
            let mut name = member.name.clone();
            let ghost mut times: nat = 0;
            let ghost bound: int = max_len(taken) as int + 1;
            loop
                invariant
                    taken == r@.map_values(|m: ObjectMember| m.name@),
                    bound == max_len(taken) as int + 1,
                    name@ == qualified(arch.stem@, member.name@, times),
                    forall|k: nat| k < times ==> taken.contains(#[trigger] qualified(arch.stem@, member.name@, k)),
                ensures
                    !taken.contains(name@),
                    name@ == qualified(arch.stem@, member.name@, times),
                    forall|k: nat| k < times ==> taken.contains(#[trigger] qualified(arch.stem@, member.name@, k)),
                decreases if name@.len() < bound { bound - name@.len() } else { 0 },
            {
                if !names_contain(&r, &name) {
                    break;
                }
                proof {
                    lemma_max_len(taken, name@);
                }
                let ghost prev_name = name@;
                let ghost prev_times = times;
                let q = arch.stem.clone().concat("-");
                proof {
                    reveal_strlit("-");
                    assert("-"@ =~= seq!['-']);
                }
                name = q.concat(name.as_str());
                proof {
                    times = times + 1;
                    assert(name@.len() > prev_name.len());
                    assert(prev_name.len() <= max_len(taken));
                    assert(name@ == qualified(arch.stem@, member.name@, times));
                    assert forall|k: nat| k < times implies taken.contains(
                        #[trigger] qualified(arch.stem@, member.name@, k),
                    ) by {
                        if k == prev_times {
                            assert(qualified(arch.stem@, member.name@, k) == prev_name);
                        }
                    }
                }
            }
            let ghost prev_r = r@;
            r.push(ObjectMember { name, data: member.data.clone() });
            proof {
                let k = base + i;
                assert((before + here)[k] == here[i as int]);
                assert(r@.take(k) =~= prev_r);
                assert(r@[k].name@ == qualified(arch.stem@, member.name@, times));
                assert forall|j: int| 0 <= j < k implies r@.take(j) =~= prev_r.take(j) by {}
                assert(is_disambiguated(
                    (before + here)[k].2,
                    (before + here)[k].0,
                    r@.take(k).map_values(|m: ObjectMember| m.name@),
                    r@[k].name@,
                ));
            }
            i = i + 1;
        }
        assert(here.len() == arch.members@.len());
        a = a + 1;
    }
    assert(archives@.take(a as int) =~= archives@);
    r
}

/// The member names of the inputs, in gathering order.
pub open spec fn input_names(archives: Seq<InputArchive>) -> Seq<Seq<char>> {
    all_members(archives).map_values(|t: (Seq<char>, Seq<u8>, Seq<char>)| t.0)
}

proof fn lemma_union_prefix(archives: Seq<InputArchive>, r: Seq<ObjectMember>, n: int)
    requires
        0 <= n <= r.len(),
        r.len() == all_members(archives).len(),
        crate::order::distinct_names(input_names(archives)),
        forall|k: int|
            0 <= k < r.len() ==> is_disambiguated(
                all_members(archives)[k].2,
                all_members(archives)[k].0,
                r.take(k).map_values(|m: ObjectMember| m.name@),
                (#[trigger] r[k]).name@,
            ),
    ensures
        forall|k: int| 0 <= k < n ==> (#[trigger] r[k]).name@ == all_members(archives)[k].0,
    decreases n,
{
    if n > 0 {
        lemma_union_prefix(archives, r, n - 1);
        let k = n - 1;
        let all = all_members(archives);
        let taken = r.take(k).map_values(|m: ObjectMember| m.name@);
        assert(input_names(archives)[k] == all[k].0);
        assert(!taken.contains(all[k].0)) by {
            if taken.contains(all[k].0) {
                let j = choose|j: int| 0 <= j < taken.len() && taken[j] == all[k].0;
                assert(taken[j] == r[j].name@);
                assert(input_names(archives)[j] == all[j].0);
            }
        }
        let m = choose|m: nat|
            {
                &&& r[k].name@ == #[trigger] qualified(all[k].2, all[k].0, m)
                &&& !taken.contains(r[k].name@)
                &&& forall|i: nat| i < m ==> taken.contains(#[trigger] qualified(all[k].2, all[k].0, i))
            };
        if m > 0 {
            assert(taken.contains(qualified(all[k].2, all[k].0, 0)));
        }
    }
}

/// When no two input members share a name, gathering yields exactly the
/// members of all inputs, archive after archive, each with its own name
/// and bytes.
pub proof fn lemma_union_when_names_distinct(archives: Seq<InputArchive>, r: Seq<ObjectMember>)
    requires
        crate::order::distinct_names(input_names(archives)),
        r.len() == all_members(archives).len(),
        forall|k: int| 0 <= k < r.len() ==> (#[trigger] r[k]).data@ == all_members(archives)[k].1,
        forall|k: int|
            0 <= k < r.len() ==> is_disambiguated(
                all_members(archives)[k].2,
                all_members(archives)[k].0,
                r.take(k).map_values(|m: ObjectMember| m.name@),
                (#[trigger] r[k]).name@,
            ),
    ensures
        r.map_values(|m: ObjectMember| member_view(m)) == all_members(archives).map_values(
            |t: (Seq<char>, Seq<u8>, Seq<char>)| (t.0, t.1),
        ),
{
    lemma_union_prefix(archives, r, r.len() as int);
    assert(r.map_values(|m: ObjectMember| member_view(m)) =~= all_members(archives).map_values(
        |t: (Seq<char>, Seq<u8>, Seq<char>)| (t.0, t.1),
    ));
}

/// Gathering never yields two members with the same name, whatever the
/// inputs hold.
pub proof fn lemma_gathered_names_distinct(archives: Seq<InputArchive>, r: Seq<ObjectMember>)
    requires
        r.len() == all_members(archives).len(),
        forall|k: int|
            0 <= k < r.len() ==> is_disambiguated(
                all_members(archives)[k].2,
                all_members(archives)[k].0,
                r.take(k).map_values(|m: ObjectMember| m.name@),
                (#[trigger] r[k]).name@,
            ),
    ensures
        crate::order::distinct_names(r.map_values(|m: ObjectMember| m.name@)),
{
    let names = r.map_values(|m: ObjectMember| m.name@);
    assert forall|i: int, j: int| 0 <= i < j < names.len() implies names[i] != names[j] by {
        let taken = r.take(j).map_values(|m: ObjectMember| m.name@);
        assert(is_disambiguated(
            all_members(archives)[j].2,
            all_members(archives)[j].0,
            taken,
            r[j].name@,
        ));
        assert(taken[i] == names[i]);
        assert(!taken.contains(r[j].name@));
    }
}

/// How a merge proceeds once the options are checked.
#[derive(Debug, Clone)]
pub enum MergePlan {
    /// No symbol policy: repack the members as they are.
    Simple,
    /// Localize symbols under the given mode and pattern sources.
    Localize { mode: ArmergeKeepOrRemove, patterns: Vec<String> },
}

/// Checks the options of a merge before anything is read or written: at
/// least one input, and not both symbols to keep and symbols to remove.
pub fn plan_merge(n_inputs: usize, keep_symbols: &Vec<String>, remove_symbols: &Vec<String>) -> (r:
    Result<MergePlan, MergeError>)
    ensures
        n_inputs == 0 ==> r matches Err(MergeError::NoInputs),
        n_inputs > 0 && keep_symbols@.len() > 0 && remove_symbols@.len() > 0 ==> r matches Err(
            MergeError::ConflictingSymbolPolicies,
        ),
        n_inputs > 0 && keep_symbols@.len() == 0 && remove_symbols@.len() == 0 ==> r matches Ok(
            MergePlan::Simple,
        ),
        n_inputs > 0 && keep_symbols@.len() > 0 && remove_symbols@.len() == 0 ==> (r matches Ok(
            MergePlan::Localize { mode, patterns },
        ) && mode == ArmergeKeepOrRemove::KeepSymbols && string_views(patterns@) == string_views(
            keep_symbols@,
        )),
        n_inputs > 0 && keep_symbols@.len() == 0 && remove_symbols@.len() > 0 ==> (r matches Ok(
            MergePlan::Localize { mode, patterns },
        ) && mode == ArmergeKeepOrRemove::RemoveSymbols && string_views(patterns@) == string_views(
            remove_symbols@,
        )),
{
    if n_inputs == 0 {
        return Err(MergeError::NoInputs);
    }
    match (keep_symbols.len() == 0, remove_symbols.len() == 0) {
        (true, true) => Ok(MergePlan::Simple),
        (false, true) => Ok(
            MergePlan::Localize {
                mode: ArmergeKeepOrRemove::KeepSymbols,
                patterns: copy_strings(keep_symbols),
            },
        ),
        (true, false) => Ok(
            MergePlan::Localize {
                mode: ArmergeKeepOrRemove::RemoveSymbols,
                patterns: copy_strings(remove_symbols),
            },
        ),
        (false, false) => Err(MergeError::ConflictingSymbolPolicies),
    }
}

fn copy_strings(v: &Vec<String>) -> (r: Vec<String>)
    ensures
        string_views(r@) == string_views(v@),
{
    let mut r: Vec<String> = Vec::new();
    let mut i: usize = 0;
    while i < v.len()
        invariant
            0 <= i <= v@.len(),
            string_views(r@) == string_views(v@).take(i as int),
        decreases v@.len() - i,
    {
        let ghost prev = r@;
        r.push(v[i].clone());
        assert(string_views(r@) =~= string_views(prev).push(v@[i as int]@));
        assert(string_views(v@).take(i + 1) =~= string_views(v@).take(i as int).push(v@[i as int]@));
        i = i + 1;
    }
    assert(string_views(v@).take(i as int) =~= string_views(v@));
    r
}

/// Compiles the patterns of a policy in order. Fails with `InvalidPattern`
/// naming the first pattern that is not a valid regular expression.
pub fn compile_policy(mode: ArmergeKeepOrRemove, patterns: &Vec<String>) -> (r: Result<
    SymbolPolicy,
    MergeError,
>)
    ensures
        r is Ok <==> forall|i: int| 0 <= i < patterns@.len() ==> pattern_compiles(#[trigger] patterns@[i]@),
        r matches Ok(p) ==> p.mode == mode && p.spec_patterns() == string_views(patterns@),
        r matches Err(e) ==> exists|i: int|
            0 <= i < patterns@.len() && !pattern_compiles(#[trigger] patterns@[i]@) && (forall|j: int|
                0 <= j < i ==> pattern_compiles(#[trigger] patterns@[j]@)) && (e matches MergeError::InvalidPattern { pattern }
                && pattern@ == patterns@[i]@),
{
    let mut compiled: Vec<SymbolPattern> = Vec::new();
    let mut i: usize = 0;
    while i < patterns.len()
        invariant
            0 <= i <= patterns@.len(),
            compiled@.len() == i,
            forall|j: int| 0 <= j < i ==> pattern_compiles(#[trigger] patterns@[j]@),
            forall|j: int| 0 <= j < i ==> (#[trigger] compiled@[j])@ == patterns@[j]@,
        decreases patterns@.len() - i,
    {
        match SymbolPattern::new(patterns[i].as_str()) {
            Ok(p) => compiled.push(p),
            Err(e) => {
                return Err(e);
            },
        }
        i = i + 1;
    }
    let r = SymbolPolicy { mode, patterns: compiled };
    assert(r.spec_patterns() =~= string_views(patterns@));
    Ok(r)
}

} // verus!
