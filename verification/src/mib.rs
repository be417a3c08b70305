//! Resolution of symbolic `MODULE::symbol` names into numeric OIDs,
//! over the parsed MIB module corpus.

use vstd::prelude::*;
use vstd::string::StrSliceExecFns;

use crate::text::split_on_char;
use crate::text::spec_split_char;
use crate::text::parse_u64;
use crate::text::spec_parse_u64;
use crate::text::str_eq;

verus! {

/// One import of a `Module`: symbol `name` comes from module `from`.
#[derive(Clone, Debug)]
pub struct Import {
    pub name: String,
    pub from: String,
}

/// Mathematical image of an `Import`.
pub struct ImportView {
    pub name: Seq<char>,
    pub from: Seq<char>,
}

impl View for Import {
    type V = ImportView;

    open spec fn view(&self) -> ImportView {
        ImportView { name: self.name@, from: self.from@ }
    }
}

/// One assignment of a `Module`: `name` is defined by an optional value
/// whose textual form is `"<kind> <parent> <sub-identifier>"`.
#[derive(Clone, Debug)]
pub struct Assignment {
    pub name: String,
    pub value: Option<String>,
}

/// Mathematical image of an `Assignment`.
pub struct AssignmentView {
    pub name: Seq<char>,
    pub value: Option<Seq<char>>,
}

impl View for Assignment {
    type V = AssignmentView;

    open spec fn view(&self) -> AssignmentView {
        AssignmentView {
            name: self.name@,
            value: match &self.value {
                Some(v) => Some(v@),
                None => None,
            },
        }
    }
}

/// One parsed MIB module.
#[derive(Clone, Debug)]
pub struct Module {
    pub name: String,
    pub assignments: Vec<Assignment>,
    pub imports: Vec<Import>,
}

/// Mathematical image of a `Module`.
pub struct ModuleView {
    pub name: Seq<char>,
    pub assignments: Seq<AssignmentView>,
    pub imports: Seq<ImportView>,
}

impl View for Module {
    type V = ModuleView;

    open spec fn view(&self) -> ModuleView {
        ModuleView {
            name: self.name@,
            assignments: self.assignments@.map_values(|a: Assignment| a@),
            imports: self.imports@.map_values(|i: Import| i@),
        }
    }
}

/// One parsed MIB file, holding its modules.
#[derive(Clone, Debug)]
pub struct MibInfo {
    pub modules: Vec<Module>,
}

/// Mathematical image of a `MibInfo`.
pub struct MibInfoView {
    pub modules: Seq<ModuleView>,
}

impl View for MibInfo {
    type V = MibInfoView;

    open spec fn view(&self) -> MibInfoView {
        MibInfoView { modules: self.modules@.map_values(|m: Module| m@) }
    }
}

/// The views of a MIB corpus.
pub open spec fn mibs_view(mibs: Seq<MibInfo>) -> Seq<MibInfoView> {
    mibs.map_values(|m: MibInfo| m@)
}

/// Whether positions `i` and `i + 1` of `s` hold the `::` separator.
pub open spec fn spec_sep_at(s: Seq<char>, i: int) -> bool {
    0 <= i && i + 1 < s.len() && s[i] == ':' && s[i + 1] == ':'
}

/// How many positions at or after `i` start a `::` separator.
pub open spec fn spec_count_seps(s: Seq<char>, i: int) -> nat
    decreases s.len() - i,
{
    if i + 1 >= s.len() {
        0
    } else {
        (if spec_sep_at(s, i) {
            1nat
        } else {
            0nat
        }) + spec_count_seps(s, i + 1)
    }
}

/// The first position at or after `i` that starts a `::` separator.
pub open spec fn spec_first_sep(s: Seq<char>, i: int) -> Option<int>
    decreases s.len() - i,
{
    if i + 1 >= s.len() {
        None
    } else if spec_sep_at(s, i) {
        Some(i)
    } else {
        spec_first_sep(s, i + 1)
    }
}

/// A well-formed symbolic OID holds exactly one `::` separator.
pub open spec fn spec_symbol_wf(s: Seq<char>) -> bool {
    spec_count_seps(s, 0) == 1
}

/// The module part of a well-formed symbolic OID.
pub open spec fn spec_module_of(s: Seq<char>) -> Seq<char> {
    s.subrange(0, spec_first_sep(s, 0)->0)
}

/// The symbol part of a well-formed symbolic OID.
pub open spec fn spec_symbol_of(s: Seq<char>) -> Seq<char> {
    s.subrange(spec_first_sep(s, 0)->0 + 2, s.len() as int)
}

/// Splits `"MODULE::symbol"` at its single `::`; `None` unless the
/// separator occurs exactly once.
#[verifier::loop_isolation(false)]
pub fn split_symbolic(s: &str) -> (r: Option<(String, String)>)
    ensures
        match r {
            Some(p) => spec_symbol_wf(s@) && p.0@ == spec_module_of(s@) && p.1@ == spec_symbol_of(
                s@,
            ),
            None => !spec_symbol_wf(s@),
        },
{
    let n = s.unicode_len();
    let mut count: usize = 0;
    let mut pos: usize = 0;
    let mut i: usize = 0;
    while i < n && i + 1 < n
        invariant
            i <= n,
            n == s@.len(),
            count <= i,
            spec_count_seps(s@, 0) == count + spec_count_seps(s@, i as int),
            count == 0 ==> spec_first_sep(s@, 0) == spec_first_sep(s@, i as int),
            count > 0 ==> spec_first_sep(s@, 0) == Some(pos as int) && spec_sep_at(s@, pos as int),
        decreases n - i,
    {
        if s.get_char(i) == ':' && s.get_char(i + 1) == ':' {
            if count == 0 {
                pos = i;
            }
            count += 1;
        }
        i += 1;
    }
    if count == 1 {
        proof {
            assert(spec_count_seps(s@, i as int) == 0);
            assert(spec_symbol_wf(s@));
            assert(pos + 1 < n);
        }
        let module = s.substring_char(0, pos).to_owned();
        let symbol = s.substring_char(pos + 2, n).to_owned();
        Some((module, symbol))
    } else {
        proof {
            assert(spec_count_seps(s@, i as int) == 0);
        }
        None
    }
}

/// What an assignment value means: token one is the parent symbol,
/// token two the decimal sub-identifier; `None` when there are fewer
/// than three tokens or the number does not parse.
pub open spec fn spec_parse_assignment(v: Seq<char>) -> Option<(Seq<char>, u64)> {
    let toks = spec_split_char(v, ' ');
    if toks.len() < 3 {
        None
    } else {
        match spec_parse_u64(toks[2]) {
            Some(n) => Some((toks[1], n)),
            None => None,
        }
    }
}

/// Parses `"<kind> <parent> <sub-identifier>"` into the parent symbol
/// and the sub-identifier.
pub fn parse_assignment_value(v: &str) -> (r: Option<(String, u64)>)
    ensures
        match r {
            Some(p) => spec_parse_assignment(v@) == Some((p.0@, p.1)),
            None => spec_parse_assignment(v@) is None,
        },
{
    let toks = split_on_char(v, ' ');
    if toks.len() < 3 {
        proof {
            assert(toks@.map_values(|t: String| t@).len() == toks@.len());
        }
        return None;
    }
    proof {
        assert(toks@.map_values(|t: String| t@)[2] == toks@[2]@);
        assert(toks@.map_values(|t: String| t@)[1] == toks@[1]@);
    }
    match parse_u64(toks[2].as_str()) {
        Some(n) => Some((toks[1].clone(), n)),
        None => None,
    }
}

/// Why a symbolic OID could not be resolved.
#[derive(Clone, Debug)]
pub enum MibError {
    /// No loaded MIB file defines this module.
    ModuleNotFound { module: String },
    /// The module neither assigns nor imports the symbol, and it is not
    /// the `iso` root.
    CannotResolve { symbol: String, module: String },
    /// The symbol's assignment has no value or one that does not read
    /// as `"<kind> <parent> <sub-identifier>"`.
    MalformedAssignment { symbol: String, module: String },
    /// The parent chain re-entered this (module, symbol) pair.
    ResolutionCycle { symbol: String, module: String },
}

/// Mathematical image of a `MibError`.
pub enum MibErrorView {
    ModuleNotFound { module: Seq<char> },
    CannotResolve { symbol: Seq<char>, module: Seq<char> },
    MalformedAssignment { symbol: Seq<char>, module: Seq<char> },
    ResolutionCycle { symbol: Seq<char>, module: Seq<char> },
}

impl View for MibError {
    type V = MibErrorView;

    open spec fn view(&self) -> MibErrorView {
        match self {
            MibError::ModuleNotFound { module } => MibErrorView::ModuleNotFound {
                module: module@,
            },
            MibError::CannotResolve { symbol, module } => MibErrorView::CannotResolve {
                symbol: symbol@,
                module: module@,
            },
            MibError::MalformedAssignment { symbol, module } => MibErrorView::MalformedAssignment {
                symbol: symbol@,
                module: module@,
            },
            MibError::ResolutionCycle { symbol, module } => MibErrorView::ResolutionCycle {
                symbol: symbol@,
                module: module@,
            },
        }
    }
}

/// The first module of this file with the given name.
pub open spec fn spec_find_in_modules(mods: Seq<ModuleView>, name: Seq<char>) -> Option<ModuleView>
    decreases mods.len(),
{
    if mods.len() == 0 {
        None
    } else if mods.first().name == name {
        Some(mods.first())
    } else {
        spec_find_in_modules(mods.drop_first(), name)
    }
}

/// The first module of the corpus with the given name, files in order.
pub open spec fn spec_find_module(mibs: Seq<MibInfoView>, name: Seq<char>) -> Option<ModuleView>
    decreases mibs.len(),
{
    if mibs.len() == 0 {
        None
    } else {
        match spec_find_in_modules(mibs.first().modules, name) {
            Some(m) => Some(m),
            None => spec_find_module(mibs.drop_first(), name),
        }
    }
}

fn find_in_modules<'a>(mods: &'a Vec<Module>, name: &str) -> (r: Option<&'a Module>)
    ensures
        match r {
            Some(m) => spec_find_in_modules(mods@.map_values(|x: Module| x@), name@) == Some(m@),
            None => spec_find_in_modules(mods@.map_values(|x: Module| x@), name@) is None,
        },
{
    let ghost mv = mods@.map_values(|x: Module| x@);
    let mut i: usize = 0;
    proof {
        assert(mv.skip(0) =~= mv);
    }
    while i < mods.len()
        invariant
            i <= mods.len(),
            mv == mods@.map_values(|x: Module| x@),
            mv.len() == mods@.len(),
            spec_find_in_modules(mv, name@) == spec_find_in_modules(mv.skip(i as int), name@),
        decreases mods.len() - i,
    {
        proof {
            assert(mv.skip(i as int).first() == mods@[i as int]@);
        }
        if str_eq(mods[i].name.as_str(), name) {
            return Some(&mods[i]);
        }
        proof {
            assert(mv.skip(i as int).drop_first() =~= mv.skip(i + 1));
        }
        i += 1;
    }
    proof {
        assert(mv.skip(mods@.len() as int) =~= Seq::<ModuleView>::empty());
    }
    None
}

/// Finds the module a symbolic OID names: the first module so named,
/// scanning files in load order.
pub fn find_module<'a>(module: &str, mibs: &'a Vec<MibInfo>) -> (r: Option<&'a Module>)
    ensures
        match r {
            Some(m) => spec_find_module(mibs_view(mibs@), module@) == Some(m@),
            None => spec_find_module(mibs_view(mibs@), module@) is None,
        },
{
    let ghost mv = mibs_view(mibs@);
    let mut i: usize = 0;
    proof {
        assert(mv.skip(0) =~= mv);
    }
    while i < mibs.len()
        invariant
            i <= mibs.len(),
            mv == mibs_view(mibs@),
            mv.len() == mibs@.len(),
            spec_find_module(mv, module@) == spec_find_module(mv.skip(i as int), module@),
        decreases mibs.len() - i,
    {
        proof {
            assert(mv.skip(i as int).first() == mibs@[i as int]@);
        }
        let found = find_in_modules(&mibs[i].modules, module);
        if let Some(m) = found {
            return Some(m);
        }
        proof {
            assert(mv.skip(i as int).drop_first() =~= mv.skip(i + 1));
        }
        i += 1;
    }
    proof {
        assert(mv.skip(mibs@.len() as int) =~= Seq::<MibInfoView>::empty());
    }
    None
}

/// The first assignment with the given name.
pub open spec fn spec_find_assignment(asgs: Seq<AssignmentView>, name: Seq<char>) -> Option<
    AssignmentView,
>
    decreases asgs.len(),
{
    if asgs.len() == 0 {
        None
    } else if asgs.first().name == name {
        Some(asgs.first())
    } else {
        spec_find_assignment(asgs.drop_first(), name)
    }
}

fn find_assignment<'a>(asgs: &'a Vec<Assignment>, name: &str) -> (r: Option<&'a Assignment>)
    ensures
        match r {
            Some(a) => spec_find_assignment(asgs@.map_values(|x: Assignment| x@), name@) == Some(
                a@,
            ),
            None => spec_find_assignment(asgs@.map_values(|x: Assignment| x@), name@) is None,
        },
{
    let ghost av = asgs@.map_values(|x: Assignment| x@);
    let mut i: usize = 0;
    proof {
        assert(av.skip(0) =~= av);
    }
    while i < asgs.len()
        invariant
            i <= asgs.len(),
            av == asgs@.map_values(|x: Assignment| x@),
            av.len() == asgs@.len(),
            spec_find_assignment(av, name@) == spec_find_assignment(av.skip(i as int), name@),
        decreases asgs.len() - i,
    {
        proof {
            assert(av.skip(i as int).first() == asgs@[i as int]@);
        }
        if str_eq(asgs[i].name.as_str(), name) {
            return Some(&asgs[i]);
        }
        proof {
            assert(av.skip(i as int).drop_first() =~= av.skip(i + 1));
        }
        i += 1;
    }
    proof {
        assert(av.skip(asgs@.len() as int) =~= Seq::<AssignmentView>::empty());
    }
    None
}

/// The first import with the given name.
pub open spec fn spec_find_import(imps: Seq<ImportView>, name: Seq<char>) -> Option<ImportView>
    decreases imps.len(),
{
    if imps.len() == 0 {
        None
    } else if imps.first().name == name {
        Some(imps.first())
    } else {
        spec_find_import(imps.drop_first(), name)
    }
}

fn find_import<'a>(imps: &'a Vec<Import>, name: &str) -> (r: Option<&'a Import>)
    ensures
        match r {
            Some(a) => spec_find_import(imps@.map_values(|x: Import| x@), name@) == Some(a@),
            None => spec_find_import(imps@.map_values(|x: Import| x@), name@) is None,
        },
{
    let ghost iv = imps@.map_values(|x: Import| x@);
    let mut i: usize = 0;
    proof {
        assert(iv.skip(0) =~= iv);
    }
    while i < imps.len()
        invariant
            i <= imps.len(),
            iv == imps@.map_values(|x: Import| x@),
            iv.len() == imps@.len(),
            spec_find_import(iv, name@) == spec_find_import(iv.skip(i as int), name@),
        decreases imps.len() - i,
    {
        proof {
            assert(iv.skip(i as int).first() == imps@[i as int]@);
        }
        if str_eq(imps[i].name.as_str(), name) {
            return Some(&imps[i]);
        }
        proof {
            assert(iv.skip(i as int).drop_first() =~= iv.skip(i + 1));
        }
        i += 1;
    }
    proof {
        assert(iv.skip(imps@.len() as int) =~= Seq::<ImportView>::empty());
    }
    None
}

/// The views of the (module, symbol) pairs already on the resolution
/// path.
pub open spec fn visited_view(v: Seq<(String, String)>) -> Seq<(Seq<char>, Seq<char>)> {
    v.map_values(|p: (String, String)| (p.0@, p.1@))
}

/// Whether the resolution path already went through (module, symbol).
pub open spec fn spec_visited_has(
    visited: Seq<(Seq<char>, Seq<char>)>,
    module: Seq<char>,
    symbol: Seq<char>,
) -> bool {
    exists|i: int| 0 <= i < visited.len() && visited[i] == (module, symbol)
}

fn visited_has(visited: &Vec<(String, String)>, module: &str, symbol: &str) -> (r: bool)
    ensures
        r == spec_visited_has(visited_view(visited@), module@, symbol@),
{
    let ghost vv = visited_view(visited@);
    let mut i: usize = 0;
    while i < visited.len()
        invariant
            i <= visited.len(),
            vv == visited_view(visited@),
            vv.len() == visited@.len(),
            forall|j: int| 0 <= j < i ==> vv[j] != (module@, symbol@),
        decreases visited.len() - i,
    {
        if str_eq(visited[i].0.as_str(), module) && str_eq(visited[i].1.as_str(), symbol) {
            proof {
                assert(vv[i as int] == (module@, symbol@));
            }
            return true;
        }
        proof {
            assert(vv[i as int] != (module@, symbol@));
        }
        i += 1;
    }
    false
}

/// Resolution of `symbol` within `module`, walking parent assignments
/// bottom-up, jumping through imports, and anchoring at the `iso` root:
/// the OID is the parent's OID with this assignment's sub-identifier
/// appended. The walk fails on re-entry of a (module, symbol) pair and
/// when the fuel — a bound over the whole corpus — runs out.
pub open spec fn spec_resolve(
    mibs: Seq<MibInfoView>,
    module: Seq<char>,
    symbol: Seq<char>,
    visited: Seq<(Seq<char>, Seq<char>)>,
    fuel: nat,
) -> Result<Seq<u64>, MibErrorView>
    decreases fuel,
{
    if spec_visited_has(visited, module, symbol) || fuel == 0 {
        Err(MibErrorView::ResolutionCycle { symbol: symbol, module: module })
    } else {
        match spec_find_module(mibs, module) {
            None => Err(MibErrorView::ModuleNotFound { module: module }),
            Some(m) => match spec_find_assignment(m.assignments, symbol) {
                Some(a) => match a.value {
                    Some(v) => match spec_parse_assignment(v) {
                        Some(pn) => match spec_resolve(
                            mibs,
                            module,
                            pn.0,
                            visited.push((module, symbol)),
                            (fuel - 1) as nat,
                        ) {
                            Ok(p) => Ok(p.push(pn.1)),
                            Err(e) => Err(e),
                        },
                        None => Err(
                            MibErrorView::MalformedAssignment { symbol: symbol, module: module },
                        ),
                    },
                    None => Err(
                        MibErrorView::MalformedAssignment { symbol: symbol, module: module },
                    ),
                },
                None => match spec_find_import(m.imports, symbol) {
                    Some(imp) => spec_resolve(
                        mibs,
                        imp.from,
                        imp.name,
                        visited.push((module, symbol)),
                        (fuel - 1) as nat,
                    ),
                    None => if symbol == "iso"@ {
                        Ok(seq![1u64])
                    } else {
                        Err(MibErrorView::CannotResolve { symbol: symbol, module: module })
                    },
                },
            },
        }
    }
}

fn resolve_symbol(
    mibs: &Vec<MibInfo>,
    module: &str,
    symbol: &str,
    visited: &mut Vec<(String, String)>,
    fuel: usize,
) -> (r: Result<Vec<u64>, MibError>)
    ensures
        match r {
            Ok(o) => spec_resolve(
                mibs_view(mibs@),
                module@,
                symbol@,
                visited_view(old(visited)@),
                fuel as nat,
            ) == Ok::<_, MibErrorView>(o@),
            Err(e) => spec_resolve(
                mibs_view(mibs@),
                module@,
                symbol@,
                visited_view(old(visited)@),
                fuel as nat,
            ) == Err::<Seq<u64>, _>(e@),
        },
    decreases fuel,
{
    if visited_has(visited, module, symbol) || fuel == 0 {
        return Err(
            MibError::ResolutionCycle { symbol: symbol.to_owned(), module: module.to_owned() },
        );
    }
    let found = find_module(module, mibs);
    let m = match found {
        Some(m) => m,
        None => {
            return Err(MibError::ModuleNotFound { module: module.to_owned() });
        },
    };
    let assignment = find_assignment(&m.assignments, symbol);
    match assignment {
        Some(a) => {
            let value = match &a.value {
                Some(v) => v,
                None => {
                    return Err(
                        MibError::MalformedAssignment {
                            symbol: symbol.to_owned(),
                            module: module.to_owned(),
                        },
                    );
                },
            };
            match parse_assignment_value(value.as_str()) {
                Some((parent, n)) => {
                    visited.push((module.to_owned(), symbol.to_owned()));
                    proof {
                        assert(visited_view(visited@) =~= visited_view(old(visited)@).push(
                            (module@, symbol@),
                        ));
                    }
                    match resolve_symbol(mibs, module, parent.as_str(), visited, fuel - 1) {
                        Ok(mut p) => {
                            p.push(n);
                            Ok(p)
                        },
                        Err(e) => Err(e),
                    }
                },
                None => Err(
                    MibError::MalformedAssignment {
                        symbol: symbol.to_owned(),
                        module: module.to_owned(),
                    },
                ),
            }
        },
        None => {
            let import = find_import(&m.imports, symbol);
            match import {
                Some(imp) => {
                    let from = imp.from.clone();
                    let name = imp.name.clone();
                    visited.push((module.to_owned(), symbol.to_owned()));
                    proof {
                        assert(visited_view(visited@) =~= visited_view(old(visited)@).push(
                            (module@, symbol@),
                        ));
                    }
                    resolve_symbol(mibs, from.as_str(), name.as_str(), visited, fuel - 1)
                },
                None => {
                    if str_eq(symbol, "iso") {
                        let mut o: Vec<u64> = Vec::new();
                        o.push(1);
                        proof {
                            assert(o@ =~= seq![1u64]);
                        }
                        Ok(o)
                    } else {
                        Err(
                            MibError::CannotResolve {
                                symbol: symbol.to_owned(),
                                module: module.to_owned(),
                            },
                        )
                    }
                },
            }
        },
    }
}

/// Addition capped at the largest fuel value.
pub open spec fn spec_sat_add(a: nat, b: nat) -> nat {
    if a + b > usize::MAX {
        usize::MAX as nat
    } else {
        a + b
    }
}

/// The number of assignments and imports of one module, capped.
pub open spec fn spec_module_items(m: ModuleView) -> nat {
    spec_sat_add(m.assignments.len(), m.imports.len())
}

/// The item count of one file's modules, capped.
pub open spec fn spec_budget_modules(mods: Seq<ModuleView>) -> nat
    decreases mods.len(),
{
    if mods.len() == 0 {
        0
    } else {
        spec_sat_add(spec_module_items(mods.first()), spec_budget_modules(mods.drop_first()))
    }
}

/// The item count of the whole corpus, capped.
pub open spec fn spec_budget_infos(mibs: Seq<MibInfoView>) -> nat
    decreases mibs.len(),
{
    if mibs.len() == 0 {
        0
    } else {
        spec_sat_add(spec_budget_modules(mibs.first().modules), spec_budget_infos(mibs.drop_first()))
    }
}

/// The fuel a resolution starts with: one more than the corpus's item
/// count, so that fuel runs out only after some (module, symbol) pair
/// must have repeated.
pub open spec fn spec_start_fuel(mibs: Seq<MibInfoView>) -> nat {
    spec_sat_add(spec_budget_infos(mibs), 1)
}

fn sat_add_usize(a: usize, b: usize) -> (r: usize)
    ensures
        r as nat == spec_sat_add(a as nat, b as nat),
{
    if a > usize::MAX - b {
        usize::MAX
    } else {
        a + b
    }
}

fn start_fuel(mibs: &Vec<MibInfo>) -> (r: usize)
    ensures
        r as nat == spec_start_fuel(mibs_view(mibs@)),
{
    let ghost mv = mibs_view(mibs@);
    let mut total: usize = 0;
    let mut i: usize = mibs.len();
    proof {
        assert(mv.skip(mibs@.len() as int) =~= Seq::<MibInfoView>::empty());
    }
    while i > 0
        invariant
            i <= mibs.len(),
            mv == mibs_view(mibs@),
            mv.len() == mibs@.len(),
            total as nat == spec_budget_infos(mv.skip(i as int)),
        decreases i,
    {
        i -= 1;
        let mods = &mibs[i].modules;
        let ghost modv = mods@.map_values(|m: Module| m@);
        let mut part: usize = 0;
        let mut j: usize = mods.len();
        proof {
            assert(mv.skip(i as int).first() == mibs@[i as int]@);
            assert(mv.skip(i as int).drop_first() =~= mv.skip(i + 1));
            assert(modv == mibs@[i as int]@.modules);
            assert(modv.skip(mods@.len() as int) =~= Seq::<ModuleView>::empty());
        }
        while j > 0
            invariant
                j <= mods.len(),
                modv == mods@.map_values(|m: Module| m@),
                modv.len() == mods@.len(),
                part as nat == spec_budget_modules(modv.skip(j as int)),
            decreases j,
        {
            j -= 1;
            proof {
                assert(modv.skip(j as int).first() == modv[j as int]);
                assert(modv.skip(j as int).drop_first() =~= modv.skip(j + 1));
                assert(modv[j as int] == mods@[j as int]@);
            }
            let items = sat_add_usize(mods[j].assignments.len(), mods[j].imports.len());
            part = sat_add_usize(items, part);
        }
        proof {
            assert(modv.skip(0) =~= modv);
        }
        total = sat_add_usize(part, total);
    }
    proof {
        assert(mv.skip(0) =~= mv);
    }
    sat_add_usize(total, 1)
}

/// Resolves a symbolic OID `"MODULE::symbol"` against the loaded MIB
/// corpus into its numeric OID, rooted at `iso`.
pub fn build_snmp_mib_tree(oid: &String, mibs: &Vec<MibInfo>) -> (r: Result<Vec<u64>, MibError>)
    requires
        spec_symbol_wf(oid@),
    ensures
        match r {
            Ok(o) => spec_resolve(
                mibs_view(mibs@),
                spec_module_of(oid@),
                spec_symbol_of(oid@),
                Seq::empty(),
                spec_start_fuel(mibs_view(mibs@)),
            ) == Ok::<_, MibErrorView>(o@),
            Err(e) => spec_resolve(
                mibs_view(mibs@),
                spec_module_of(oid@),
                spec_symbol_of(oid@),
                Seq::empty(),
                spec_start_fuel(mibs_view(mibs@)),
            ) == Err::<Seq<u64>, _>(e@),
        },
{
    let split = split_symbolic(oid.as_str());
    let (module, symbol) = match split {
        Some(p) => p,
        None => {
            proof {
                assert(false);
            }
            vstd::pervasive::unreached()
        },
    };
    let fuel = start_fuel(mibs);
    let mut visited: Vec<(String, String)> = Vec::new();
    proof {
        assert(visited_view(visited@) =~= Seq::<(Seq<char>, Seq<char>)>::empty());
    }
    resolve_symbol(mibs, module.as_str(), symbol.as_str(), &mut visited, fuel)
}

/// Resolver correctness: whatever the corpus, a resolved OID is
/// non-empty and begins with `1`, the `iso` root. Determinism is by
/// construction: the result is a function of the corpus and the name.
pub proof fn lemma_resolve_starts_at_iso(
    mibs: Seq<MibInfoView>,
    module: Seq<char>,
    symbol: Seq<char>,
    visited: Seq<(Seq<char>, Seq<char>)>,
    fuel: nat,
)
    requires
        spec_resolve(mibs, module, symbol, visited, fuel) is Ok,
    ensures
        spec_resolve(mibs, module, symbol, visited, fuel)->Ok_0.len() > 0,
        spec_resolve(mibs, module, symbol, visited, fuel)->Ok_0[0] == 1u64,
    decreases fuel,
{
    if spec_visited_has(visited, module, symbol) || fuel == 0 {
    } else {
        match spec_find_module(mibs, module) {
            None => {},
            Some(m) => match spec_find_assignment(m.assignments, symbol) {
                Some(a) => match a.value {
                    Some(v) => match spec_parse_assignment(v) {
                        Some(pn) => {
                            lemma_resolve_starts_at_iso(
                                mibs,
                                module,
                                pn.0,
                                visited.push((module, symbol)),
                                (fuel - 1) as nat,
                            );
                        },
                        None => {},
                    },
                    None => {},
                },
                None => match spec_find_import(m.imports, symbol) {
                    Some(imp) => {
                        lemma_resolve_starts_at_iso(
                            mibs,
                            imp.from,
                            imp.name,
                            visited.push((module, symbol)),
                            (fuel - 1) as nat,
                        );
                    },
                    None => {},
                },
            },
        }
    }
}

/// Resolver correctness, chain form: where `symbol`'s assignment in
/// `module` parses to a parent and a sub-identifier, its OID is the
/// parent's OID with that sub-identifier appended — so a chain ending
/// at `iso` yields the root followed by the chain's sub-identifiers in
/// root-to-leaf order.
pub proof fn lemma_resolve_assignment_step(
    mibs: Seq<MibInfoView>,
    module: Seq<char>,
    symbol: Seq<char>,
    visited: Seq<(Seq<char>, Seq<char>)>,
    fuel: nat,
)
    requires
        !spec_visited_has(visited, module, symbol),
        fuel > 0,
        spec_find_module(mibs, module) is Some,
        spec_find_assignment(spec_find_module(mibs, module)->0.assignments, symbol) is Some,
        spec_find_assignment(spec_find_module(mibs, module)->0.assignments, symbol)->0.value
            is Some,
        spec_parse_assignment(
            spec_find_assignment(spec_find_module(mibs, module)->0.assignments, symbol)->0.value->0,
        ) is Some,
    ensures
        ({
            let pn = spec_parse_assignment(
                spec_find_assignment(
                    spec_find_module(mibs, module)->0.assignments,
                    symbol,
                )->0.value->0,
            )->0;
            spec_resolve(mibs, module, symbol, visited, fuel) == match spec_resolve(
                mibs,
                module,
                pn.0,
                visited.push((module, symbol)),
                (fuel - 1) as nat,
            ) {
                Ok(p) => Ok::<_, MibErrorView>(p.push(pn.1)),
                Err(e) => Err::<Seq<u64>, _>(e),
            }
        }),
{
}

} // verus!
