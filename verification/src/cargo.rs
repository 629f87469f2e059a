//! The cargo side of `cargo with`: which cargo command builds the artifact,
//! what cargo reports about the artifacts it built, and which of them to run.

use vstd::prelude::*;

use crate::error::{Candidate, Error};
use crate::text::{str_eq, str_views, join_spaces, join_with_spaces, utf8_to_str, lines, lines_seq};

verus! {

/// Kind of a cargo target, as cargo names it in its JSON messages.
#[derive(Debug, Clone, Copy, PartialEq, Eq, Structural)]
pub enum TargetKind {
    Example,
    Test,
    Bin,
    Lib,
    Rlib,
    Dylib,
    ProcMacro,
    Bench,
    CustomBuild,
}

/// The name that cargo writes for a target kind.
pub open spec fn target_kind_name(k: TargetKind) -> Seq<char> {
    match k {
        TargetKind::Example => "example"@,
        TargetKind::Test => "test"@,
        TargetKind::Bin => "bin"@,
        TargetKind::Lib => "lib"@,
        TargetKind::Rlib => "rlib"@,
        TargetKind::Dylib => "dylib"@,
        TargetKind::ProcMacro => "proc-macro"@,
        TargetKind::Bench => "bench"@,
        TargetKind::CustomBuild => "custom-build"@,
    }
}

impl TargetKind {
    /// The name that cargo writes for this kind (`proc-macro`, `custom-build`, ...).
    pub fn name(&self) -> (res: &'static str)
        ensures
            res@ == target_kind_name(*self),
    {
        match self {
            TargetKind::Example => "example",
            TargetKind::Test => "test",
            TargetKind::Bin => "bin",
            TargetKind::Lib => "lib",
            TargetKind::Rlib => "rlib",
            TargetKind::Dylib => "dylib",
            TargetKind::ProcMacro => "proc-macro",
            TargetKind::Bench => "bench",
            TargetKind::CustomBuild => "custom-build",
        }
    }
}

} // verus!

verus! {

/// The cargo subcommands that `cargo with` can build an artifact with.
#[derive(Debug, Clone, Copy, PartialEq, Eq, Structural)]
pub enum CmdKind {
    Run,
    Test,
    Bench,
    Build,
}

/// The subcommand that a word names, if any.
pub open spec fn parse_cmd_kind(s: Seq<char>) -> Option<CmdKind> {
    if s == "run"@ {
        Some(CmdKind::Run)
    } else if s == "test"@ {
        Some(CmdKind::Test)
    } else if s == "bench"@ {
        Some(CmdKind::Bench)
    } else if s == "build"@ {
        Some(CmdKind::Build)
    } else {
        None
    }
}

/// The cargo subcommand that builds the artifact of a subcommand: `run`
/// builds with `build`, so that cargo does not run the binary itself.
pub open spec fn artifact_cmd(k: CmdKind) -> Seq<char> {
    match k {
        CmdKind::Run => "build"@,
        CmdKind::Test => "test"@,
        CmdKind::Bench => "bench"@,
        CmdKind::Build => "build"@,
    }
}

/// The subcommands whose artifacts are the test harnesses, told apart by
/// their test profile: `test` and `bench`.
pub open spec fn uses_test_profile(k: CmdKind) -> bool {
    k == CmdKind::Test || k == CmdKind::Bench
}

impl CmdKind {
    /// Turns a string into a CmdKind
    pub fn from_str(s: &str) -> (res: Option<CmdKind>)
        ensures
            res == parse_cmd_kind(s@),
    {
        if str_eq(s, "run") {
            Some(CmdKind::Run)
        } else if str_eq(s, "test") {
            Some(CmdKind::Test)
        } else if str_eq(s, "bench") {
            Some(CmdKind::Bench)
        } else if str_eq(s, "build") {
            Some(CmdKind::Build)
        } else {
            None
        }
    }

    /// Returns the respective command kind as a command to pass to
    /// artifact generation
    pub fn as_artifact_cmd(&self) -> (res: &'static str)
        ensures
            res@ == artifact_cmd(*self),
    {
        match self {
            CmdKind::Run => "build",
            CmdKind::Test => "test",
            CmdKind::Bench => "bench",
            CmdKind::Build => "build",
        }
    }
}

/// The arguments that `cargo with` always passes to cargo, so that cargo
/// reports the artifacts it builds as JSON messages.
pub open spec fn default_cargo_args() -> Seq<Seq<char>> {
    seq!["--message-format=json"@, "--quiet"@]
}

/// What a cargo command is: its kind and the arguments after the subcommand.
pub struct CmdView {
    pub kind: CmdKind,
    pub args: Seq<Seq<char>>,
}

/// A cargo command that builds an artifact.
#[derive(Debug)]
pub struct Cmd<'a> {
    kind: CmdKind,
    args: Vec<&'a str>,
}

impl<'a> View for Cmd<'a> {
    type V = CmdView;

    closed spec fn view(&self) -> CmdView {
        CmdView { kind: self.kind, args: str_views(self.args@) }
    }
}

/// Every argument passed to cargo for a command: the artifact subcommand,
/// the default arguments, then the command's own arguments.
pub open spec fn cargo_args(c: CmdView) -> Seq<Seq<char>> {
    seq![artifact_cmd(c.kind)] + default_cargo_args() + c.args
}

impl<'a> Cmd<'a> {
    /// Create a command from the given strings: the first names the
    /// subcommand (`run` or `test`), the rest are its arguments.
    pub fn from_strs(strs: Vec<&'a str>) -> (res: Result<Cmd<'a>, Error>)
        ensures
            strs@.len() == 0 ==> res matches Err(Error::EmptyCargoCommand),
            strs@.len() > 0 && parse_cmd_kind(strs@[0]@) is None ==> (res matches Err(
                Error::UnknownSubcommand(s),
            ) && s@ == strs@[0]@),
            strs@.len() > 0 && parse_cmd_kind(strs@[0]@) is Some ==> (res matches Ok(c) && c@
                == (CmdView {
                kind: parse_cmd_kind(strs@[0]@)->0,
                args: str_views(strs@).drop_first(),
            })),
    {
        if strs.len() == 0 {
            return Err(Error::EmptyCargoCommand);
        }
        let kind_str = strs[0];
        let kind = match CmdKind::from_str(kind_str) {
            Some(k) => k,
            None => {
                return Err(Error::UnknownSubcommand(kind_str.to_owned()));
            },
        };
        let mut args: Vec<&'a str> = Vec::new();
        let mut i: usize = 1;
        while i < strs.len()
            invariant
                1 <= i <= strs@.len(),
                args@ == strs@.subrange(1, i as int),
            decreases strs@.len() - i,
        {
            args.push(strs[i]);
            i = i + 1;
        }
        let res = Cmd { kind, args };
        assert(str_views(args@) =~= str_views(strs@).drop_first());
        Ok(res)
    }

    /// The kind of the command.
    pub fn kind(&self) -> (res: CmdKind)
        ensures
            res == self@.kind,
    {
        self.kind
    }

    /// Get the arguments which would be passed to `cargo`
    ///
    /// Includes the type of command (e.g `test`, `run`) and the default
    /// arguments (`--message-format=json --quiet`).
    pub fn args(&self) -> (res: Vec<&str>)
        ensures
            str_views(res@) == cargo_args(self@),
    {
        let mut res: Vec<&str> = Vec::new();
        res.push(self.kind.as_artifact_cmd());
        res.push("--message-format=json");
        res.push("--quiet");
        let mut i: usize = 0;
        while i < self.args.len()
            invariant
                i <= self.args@.len(),
                res@.len() == 3 + i,
                str_views(res@) == seq![artifact_cmd(self.kind)] + default_cargo_args() + str_views(
                    self.args@,
                ).take(i as int),
            decreases self.args@.len() - i,
        {
            let ghost before = str_views(res@);
            res.push(self.args[i]);
            assert(str_views(res@) =~= before.push(self.args@[i as int]@));
            assert(str_views(self.args@).take(i + 1) =~= str_views(self.args@).take(i as int).push(
                self.args@[i as int]@,
            ));
            i = i + 1;
        }
        assert(str_views(self.args@).take(self.args@.len() as int) =~= str_views(self.args@));
        res
    }

    /// Turn the arguments into a space separated string
    pub fn args_str(&self) -> (res: String)
        ensures
            res@ == join_spaces(cargo_args(self@)),
    {
        let args = self.args();
        join_with_spaces(args.as_slice())
    }

    /// What cargo's run tells: the lines of its standard output when it
    /// succeeded with UTF-8 output, the failure otherwise.
    ///
    /// When cargo failed, its standard error and output must be UTF-8.
    pub fn read_output<'o>(&self, success: bool, stdout: &'o [u8], stderr: &[u8]) -> (res: Result<
        Vec<&'o str>,
        Error,
    >)
        requires
            !success ==> vstd::utf8::valid_utf8(stderr@) && vstd::utf8::valid_utf8(stdout@),
        ensures
            !success ==> (res matches Err(Error::CargoFailed { stderr: e, stdout: o }) && e@
                == vstd::utf8::decode_utf8(stderr@) && o@ == vstd::utf8::decode_utf8(stdout@)),
            success && !vstd::utf8::valid_utf8(stdout@) ==> (res matches Err(
                Error::InvalidCargoOutput(a),
            ) && a@ == join_spaces(cargo_args(self@))),
            success && vstd::utf8::valid_utf8(stdout@) ==> (res matches Ok(ls) && str_views(ls@)
                == lines_seq(vstd::utf8::decode_utf8(stdout@))),
    {
        if !success {
            let e = match utf8_to_str(stderr) {
                Some(s) => s.to_owned(),
                None => String::new(),
            };
            let o = match utf8_to_str(stdout) {
                Some(s) => s.to_owned(),
                None => String::new(),
            };
            return Err(Error::CargoFailed { stderr: e, stdout: o });
        }
        match utf8_to_str(stdout) {
            Some(s) => Ok(lines(s)),
            None => Err(Error::InvalidCargoOutput(self.args_str())),
        }
    }
}

} // verus!

verus! {

/// The build profile of an artifact, as cargo reports it.
#[derive(Debug, Clone)]
pub struct Profile {
    pub debug_assertions: bool,
    pub debuginfo: Option<u32>,
    pub opt_level: String,
    pub overflow_checks: bool,
    pub test: bool,
}

/// The target an artifact was built for, as cargo reports it. Paths are
/// held as the bytes of the file system's path.
#[derive(Debug, Clone)]
pub struct Target {
    pub crate_types: Vec<String>,
    pub edition: String,
    pub kind: Vec<TargetKind>,
    pub name: String,
    pub src_path: Vec<u8>,
}

/// One artifact that cargo reports to have built. Paths are held as the
/// bytes of the file system's path.
#[derive(Debug, Clone)]
pub struct BuildOpt {
    pub features: Vec<String>,
    pub filenames: Vec<Vec<u8>>,
    pub fresh: bool,
    pub package_id: String,
    pub profile: Profile,
    pub reason: String,
    pub target: Target,
}

/// The target kinds of artifacts that can be run.
pub open spec fn is_runnable_kind(k: TargetKind) -> bool {
    k == TargetKind::Bin || k == TargetKind::Example || k == TargetKind::Test
}

/// Whether an artifact fits a command: for `test` and `bench`, the
/// artifacts built with the test profile; otherwise those with a binary,
/// example or test target kind.
pub open spec fn is_candidate(opt: BuildOpt, kind: CmdKind) -> bool {
    if uses_test_profile(kind) {
        opt.profile.test
    } else {
        exists|j: int| 0 <= j < opt.target.kind@.len() && is_runnable_kind(#[trigger] opt.target.kind@[j])
    }
}

/// The artifacts of `opts` that fit a command, in their order.
pub open spec fn candidates(opts: Seq<BuildOpt>, kind: CmdKind) -> Seq<BuildOpt>
    decreases opts.len(),
{
    if opts.len() == 0 {
        seq![]
    } else {
        let rest = candidates(opts.drop_last(), kind);
        if is_candidate(opts.last(), kind) {
            rest.push(opts.last())
        } else {
            rest
        }
    }
}

/// Every candidate has a target kind, so that it can be listed.
pub open spec fn candidates_listable(opts: Seq<BuildOpt>, kind: CmdKind) -> bool {
    forall|i: int| 0 <= i < candidates(opts, kind).len() ==> (#[trigger] candidates(opts, kind)[i]).target.kind@.len() > 0
}

/// `cs` lists the artifacts of `opts` by name and first target kind.
pub open spec fn lists(cs: Seq<Candidate>, opts: Seq<BuildOpt>) -> bool {
    &&& cs.len() == opts.len()
    &&& forall|i: int| 0 <= i < cs.len() ==> (#[trigger] cs[i]).name@ == opts[i].target.name@ && cs[i].kind == opts[i].target.kind@[0]
}

fn runnable_kind(k: TargetKind) -> (res: bool)
    ensures
        res == is_runnable_kind(k),
{
    k == TargetKind::Bin || k == TargetKind::Example || k == TargetKind::Test
}

/// Whether an artifact fits a command.
fn fits(opt: &BuildOpt, kind: CmdKind) -> (res: bool)
    ensures
        res == is_candidate(*opt, kind),
{
    if kind == CmdKind::Test || kind == CmdKind::Bench {
        opt.profile.test
    } else {
        let kinds = &opt.target.kind;
        let mut j: usize = 0;
        while j < kinds.len()
            invariant
                !uses_test_profile(kind),
                kinds@ == opt.target.kind@,
                j <= kinds@.len(),
                forall|l: int| 0 <= l < j ==> !is_runnable_kind(#[trigger] kinds@[l]),
            decreases kinds@.len() - j,
        {
            if runnable_kind(kinds[j]) {
                assert(is_runnable_kind(kinds@[j as int]));
                return true;
            }
            j = j + 1;
        }
        false
    }
}

/// Selects the buildopt which fits with the requirements
///
/// If there are multiple possible candidates, this will return an error
/// that lists them all; if there are none, an error too.
pub fn select_buildopt<'o>(opts: &'o Vec<BuildOpt>, cmd_kind: CmdKind) -> (res: Result<
    &'o BuildOpt,
    Error,
>)
    requires
        candidates(opts@, cmd_kind).len() > 1 ==> candidates_listable(opts@, cmd_kind),
    ensures
        candidates(opts@, cmd_kind).len() == 0 ==> res matches Err(Error::NoCandidates),
        candidates(opts@, cmd_kind).len() == 1 ==> (res matches Ok(o) && *o == candidates(
            opts@,
            cmd_kind,
        )[0]),
        candidates(opts@, cmd_kind).len() > 1 ==> (res matches Err(
            Error::MultipleCandidates { candidates: cs, test, terminated },
        ) && test == uses_test_profile(cmd_kind) && terminated && lists(
            cs@,
            candidates(opts@, cmd_kind),
        )),
{
    let mut found: Vec<usize> = Vec::new();
    let mut i: usize = 0;
    while i < opts.len()
        invariant
            i <= opts@.len(),
            found@.len() == candidates(opts@.take(i as int), cmd_kind).len(),
            forall|l: int| 0 <= l < found@.len() ==> #[trigger] found@[l] < i && opts@[found@[l] as int]
                == candidates(opts@.take(i as int), cmd_kind)[l],
        decreases opts@.len() - i,
    {
        assert(opts@.take(i + 1).drop_last() =~= opts@.take(i as int));
        assert(opts@.take(i + 1).last() == opts@[i as int]);
        if fits(&opts[i], cmd_kind) {
            found.push(i);
        }
        i = i + 1;
    }
    assert(opts@.take(opts@.len() as int) =~= opts@);
    let ghost cands = candidates(opts@, cmd_kind);
    if found.len() == 0 {
        return Err(Error::NoCandidates);
    }
    if found.len() == 1 {
        return Ok(&opts[found[0]]);
    }
    let mut listed: Vec<Candidate> = Vec::new();
    let mut k: usize = 0;
    while k < found.len()
        invariant
            found@.len() == cands.len(),
            cands.len() > 1,
            candidates_listable(opts@, cmd_kind),
            cands == candidates(opts@, cmd_kind),
            forall|l: int| 0 <= l < found@.len() ==> #[trigger] found@[l] < opts@.len() && opts@[found@[l] as int]
                == cands[l],
            k <= found@.len(),
            lists(listed@, cands.take(k as int)),
        decreases found@.len() - k,
    {
        let o = &opts[found[k]];
        assert(o.target.kind@.len() > 0);
        let c = Candidate { name: o.target.name.clone(), kind: o.target.kind[0] };
        listed.push(c);
        k = k + 1;
    }
    assert(cands.take(cands.len() as int) =~= cands);
    let test = cmd_kind == CmdKind::Test || cmd_kind == CmdKind::Bench;
    Err(Error::MultipleCandidates { candidates: listed, test, terminated: true })
}

impl BuildOpt {
    /// Best guess for the build artifact associated with this `BuildOpt`:
    /// its first file.
    pub fn artifact(&self) -> (res: Result<Vec<u8>, Error>)
        requires
            self.filenames@.len() > 0,
        ensures
            res matches Ok(p) && p@ == self.filenames@[0]@,
    {
        let p = self.filenames[0].clone();
        assert(p@ =~= self.filenames@[0]@);
        Ok(p)
    }
}

} // verus!

verus! {

/// `e` is the error that selecting among `opts` gives when the number of
/// candidates is not one, with the candidates listed as `terminated` says.
pub open spec fn is_selection_error(e: Error, opts: Seq<BuildOpt>, kind: CmdKind, terminated: bool) -> bool {
    &&& candidates(opts, kind).len() == 0 ==> e is NoCandidates
    &&& candidates(opts, kind).len() > 1 ==> (e matches Error::MultipleCandidates {
        candidates: cs,
        test,
        terminated: t,
    } && test == uses_test_profile(kind) && t == terminated && lists(cs@, candidates(opts, kind)))
}

/// The single candidate has a file, which is taken as the artifact.
pub open spec fn selection_has_file(opts: Seq<BuildOpt>, kind: CmdKind) -> bool {
    candidates(opts, kind).len() == 1 ==> candidates(opts, kind)[0].filenames@.len() > 0
}

/// The bytes of the path of the artifact selected among `opts`.
pub open spec fn selected_path(opts: Seq<BuildOpt>, kind: CmdKind) -> Seq<u8> {
    candidates(opts, kind)[0].filenames@[0]@
}

} // verus!

verus! {

/// cargo never runs the artifact itself: for `run` the artifact is only
/// built (`build`); `test`, `bench` and `build` keep their own subcommand;
/// then come the default arguments, then the command's own arguments in
/// their order.
pub proof fn law_cargo_builds_without_running(c: CmdView)
    ensures
        cargo_args(c)[0] != "run"@,
        c.kind == CmdKind::Run ==> cargo_args(c)[0] == "build"@,
        c.kind != CmdKind::Run ==> cargo_args(c)[0] == (if c.kind == CmdKind::Test {
            "test"@
        } else if c.kind == CmdKind::Bench {
            "bench"@
        } else {
            "build"@
        }),
        cargo_args(c).subrange(1, 3) == default_cargo_args(),
        cargo_args(c).skip(3) == c.args,
{
    reveal_strlit("run");
    reveal_strlit("build");
    reveal_strlit("test");
    reveal_strlit("bench");
    assert("run"@.len() != "build"@.len());
    assert("run"@.len() != "bench"@.len());
    assert("run"@[0] != "test"@[0]);
    assert(cargo_args(c).subrange(1, 3) =~= default_cargo_args());
    assert(cargo_args(c).skip(3) =~= c.args);
}

/// Selection only ever gives an artifact that fits the command, and only
/// when no other artifact fits: for `test` and `bench`, an artifact built
/// with the test profile; otherwise one whose target is a binary, an example or a
/// test.
pub proof fn law_selected_fits(opts: Seq<BuildOpt>, kind: CmdKind)
    requires
        candidates(opts, kind).len() == 1,
    ensures
        is_candidate(candidates(opts, kind)[0], kind),
        exists|i: int| 0 <= i < opts.len() && opts[i] == candidates(opts, kind)[0],
        forall|i: int, j: int| 0 <= i < j < opts.len() ==> !(is_candidate(opts[i], kind) && is_candidate(opts[j], kind)),
{
    lemma_candidates(opts, kind);
}

/// Each candidate is an artifact that fits, taken from `opts` in order, and
/// every artifact that fits is a candidate.
proof fn lemma_candidates(opts: Seq<BuildOpt>, kind: CmdKind)
    ensures
        forall|k: int| 0 <= k < candidates(opts, kind).len() ==> is_candidate(#[trigger] candidates(opts, kind)[k], kind),
        forall|k: int| 0 <= k < candidates(opts, kind).len() ==> exists|i: int| 0 <= i < opts.len() && opts[i] == #[trigger] candidates(opts, kind)[k],
        candidates(opts, kind).len() <= 1 ==> forall|i: int, j: int| 0 <= i < j < opts.len() ==> !(is_candidate(opts[i], kind) && is_candidate(opts[j], kind)),
        forall|i: int| 0 <= i < opts.len() && is_candidate(opts[i], kind) ==> candidates(opts, kind).len() > 0,
    decreases opts.len(),
{
    if opts.len() > 0 {
        let p = opts.drop_last();
        lemma_candidates(p, kind);
        let r = candidates(p, kind);
        assert forall|k: int| 0 <= k < candidates(opts, kind).len() implies exists|i: int| 0 <= i < opts.len() && opts[i] == #[trigger] candidates(opts, kind)[k] by {
            if k < r.len() {
                let i = choose|i: int| 0 <= i < p.len() && p[i] == r[k];
                assert(opts[i] == p[i]);
            } else {
                assert(opts[opts.len() - 1] == candidates(opts, kind)[k]);
            }
        }
        assert forall|i: int| 0 <= i < opts.len() && is_candidate(opts[i], kind) implies candidates(opts, kind).len() > 0 by {
            if i < p.len() {
                assert(p[i] == opts[i]);
            }
        }
        if candidates(opts, kind).len() <= 1 {
            assert forall|i: int, j: int| 0 <= i < j < opts.len() implies !(is_candidate(opts[i], kind) && is_candidate(opts[j], kind)) by {
                if j < p.len() {
                    assert(p[i] == opts[i] && p[j] == opts[j]);
                } else if is_candidate(opts[i], kind) && is_candidate(opts[j], kind) {
                    assert(p[i] == opts[i]);
                    assert(r.len() > 0);
                }
            }
        }
    }
}

} // verus!

verus! {

/// What selecting among the artifacts can be relied on for: a list of
/// several candidates names each one's target kind, and a single candidate
/// has a file.
pub open spec fn selectable(opts: Seq<BuildOpt>, kind: CmdKind) -> bool {
    &&& candidates(opts, kind).len() > 1 ==> candidates_listable(opts, kind)
    &&& selection_has_file(opts, kind)
}

/// Whether the artifacts can be selected among and the selected one run:
/// when several fit, each has a target kind to list it by; when one fits,
/// it has a file.
pub fn can_select(opts: &Vec<BuildOpt>, kind: CmdKind) -> (res: bool)
    ensures
        res == selectable(opts@, kind),
{
    let mut count: usize = 0;
    let mut first: usize = 0;
    let mut kindless = false;
    let mut i: usize = 0;
    while i < opts.len()
        invariant
            i <= opts@.len(),
            count == candidates(opts@.take(i as int), kind).len(),
            count <= i,
            count >= 1 ==> first < i && opts@[first as int] == candidates(opts@.take(i as int), kind)[0],
            kindless == !candidates_listable(opts@.take(i as int), kind),
        decreases opts@.len() - i,
    {
        let ghost prev = opts@.take(i as int);
        let ghost cur = opts@.take(i + 1);
        assert(cur.drop_last() =~= prev);
        assert(cur.last() == opts@[i as int]);
        if fits(&opts[i], kind) {
            assert(candidates(cur, kind) == candidates(prev, kind).push(opts@[i as int]));
            if count == 0 {
                first = i;
            }
            if opts[i].target.kind.len() == 0 {
                assert(candidates(cur, kind)[count as int] == opts@[i as int]);
                kindless = true;
            } else if !kindless {
                assert forall|k: int| 0 <= k < candidates(cur, kind).len() implies (#[trigger] candidates(cur, kind)[k]).target.kind@.len() > 0 by {
                    if k < count {
                        assert(candidates(cur, kind)[k] == candidates(prev, kind)[k]);
                    }
                }
            }
            if kindless {
                assert(!candidates_listable(cur, kind)) by {
                    if !candidates_listable(prev, kind) {
                        let k = choose|k: int| 0 <= k < candidates(prev, kind).len() && !((#[trigger] candidates(prev, kind)[k]).target.kind@.len() > 0);
                        assert(candidates(cur, kind)[k] == candidates(prev, kind)[k]);
                    }
                }
            }
            count = count + 1;
        } else {
            assert(candidates(cur, kind) == candidates(prev, kind));
        }
        i = i + 1;
    }
    assert(opts@.take(opts@.len() as int) =~= opts@);
    if count > 1 && kindless {
        return false;
    }
    if count == 1 && opts[first].filenames.len() == 0 {
        return false;
    }
    true
}

} // verus!

verus! {

/// How often each artifact is a candidate: as often as it is in `opts`
/// when it fits, never otherwise.
proof fn lemma_candidates_count(opts: Seq<BuildOpt>, kind: CmdKind, v: BuildOpt)
    ensures
        candidates(opts, kind).to_multiset().count(v) == if is_candidate(v, kind) {
            opts.to_multiset().count(v)
        } else {
            0
        },
    decreases opts.len(),
{
    broadcast use vstd::seq_lib::group_to_multiset_ensures;
    broadcast use vstd::multiset::group_multiset_properties;

    if opts.len() == 0 {
        assert(candidates(opts, kind) =~= Seq::<BuildOpt>::empty());
        assert(opts.to_multiset().len() == 0);
        assert(candidates(opts, kind).to_multiset().len() == 0);
    } else {
        let p = opts.drop_last();
        let l = opts.last();
        lemma_candidates_count(p, kind, v);
        assert(opts =~= p.push(l));
        assert(opts.to_multiset() =~= p.to_multiset().insert(l));
        if is_candidate(l, kind) {
            assert(candidates(opts, kind).to_multiset() =~= candidates(p, kind).to_multiset().insert(l));
        }
    }
}

/// Selection does not depend on the order in which cargo reports the
/// artifacts: any reordering of them has as many candidates, and when
/// there is a single one, it is the same artifact.
pub proof fn law_selection_ignores_order(opts: Seq<BuildOpt>, reordered: Seq<BuildOpt>, kind: CmdKind)
    requires
        reordered.to_multiset() == opts.to_multiset(),
    ensures
        candidates(reordered, kind).len() == candidates(opts, kind).len(),
        candidates(opts, kind).len() == 1 ==> candidates(reordered, kind)[0] == candidates(opts, kind)[0],
{
    broadcast use vstd::seq_lib::group_to_multiset_ensures;

    let c1 = candidates(opts, kind);
    let c2 = candidates(reordered, kind);
    assert forall|v: BuildOpt| c1.to_multiset().count(v) == c2.to_multiset().count(v) by {
        lemma_candidates_count(opts, kind, v);
        lemma_candidates_count(reordered, kind, v);
    }
    assert(c1.to_multiset() =~= c2.to_multiset());
    assert(c1.len() == c1.to_multiset().len());
    assert(c2.len() == c2.to_multiset().len());
    if c1.len() == 1 {
        let v = c1[0];
        assert(c1.contains(v));
        assert(c2.to_multiset().count(v) > 0);
        assert(c2.contains(v));
        let j = choose|j: int| 0 <= j < c2.len() && c2[j] == v;
        assert(j == 0);
    }
}

} // verus!

verus! {

/// For `run` and `build`, an artifact is a candidate exactly when one of
/// its target kinds is `bin`, `example` or `test`, whatever its profile:
/// libraries, proc-macros, benches and build scripts never are by
/// themselves.
pub proof fn law_candidate_by_target_kind(opt: BuildOpt, kind: CmdKind)
    requires
        kind == CmdKind::Run || kind == CmdKind::Build,
    ensures
        is_candidate(opt, kind) <==> exists|j: int|
            0 <= j < opt.target.kind@.len() && (#[trigger] opt.target.kind@[j] == TargetKind::Bin
                || opt.target.kind@[j] == TargetKind::Example || opt.target.kind@[j]
                == TargetKind::Test),
        (forall|j: int|
            0 <= j < opt.target.kind@.len() ==> #[trigger] opt.target.kind@[j] == TargetKind::Lib
                || opt.target.kind@[j] == TargetKind::Rlib || opt.target.kind@[j] == TargetKind::Dylib
                || opt.target.kind@[j] == TargetKind::ProcMacro || opt.target.kind@[j]
                == TargetKind::Bench || opt.target.kind@[j] == TargetKind::CustomBuild)
            ==> !is_candidate(opt, kind),
{
    if is_candidate(opt, kind) {
        let j = choose|j: int| 0 <= j < opt.target.kind@.len() && is_runnable_kind(#[trigger] opt.target.kind@[j]);
        assert(opt.target.kind@[j] == TargetKind::Bin || opt.target.kind@[j] == TargetKind::Example
            || opt.target.kind@[j] == TargetKind::Test);
    }
}

/// For `test` and `bench`, an artifact is a candidate exactly when it was
/// built with the test profile, whatever its target kinds.
pub proof fn law_candidate_by_test_profile(opt: BuildOpt, kind: CmdKind)
    requires
        kind == CmdKind::Test || kind == CmdKind::Bench,
    ensures
        is_candidate(opt, kind) <==> opt.profile.test,
{
}

/// The path of the selected artifact is its first file, which is what
/// `BuildOpt::artifact` gives; later files (such as debug symbols) are
/// never run.
pub proof fn law_selected_path_is_first_file(opts: Seq<BuildOpt>, kind: CmdKind)
    requires
        candidates(opts, kind).len() == 1,
        candidates(opts, kind)[0].filenames@.len() > 0,
    ensures
        selected_path(opts, kind) == candidates(opts, kind)[0].filenames@[0]@,
        exists|i: int| 0 <= i < opts.len() && is_candidate(opts[i], kind) && selected_path(opts, kind) == #[trigger] opts[i].filenames@[0]@,
{
    lemma_candidates(opts, kind);
    let i = choose|i: int| 0 <= i < opts.len() && opts[i] == #[trigger] candidates(opts, kind)[0];
    assert(opts[i] == candidates(opts, kind)[0]);
}

} // verus!

verus! {

/// The subcommands `cargo with` accepts are exactly `run`, `test`,
/// `bench` and `build`, each naming its own kind.
pub proof fn law_subcommand_names(s: Seq<char>)
    ensures
        parse_cmd_kind("run"@) == Some(CmdKind::Run),
        parse_cmd_kind("test"@) == Some(CmdKind::Test),
        parse_cmd_kind("bench"@) == Some(CmdKind::Bench),
        parse_cmd_kind("build"@) == Some(CmdKind::Build),
        s != "run"@ && s != "test"@ && s != "bench"@ && s != "build"@ ==> parse_cmd_kind(s) is None,
{
    reveal_strlit("run");
    reveal_strlit("test");
    reveal_strlit("bench");
    reveal_strlit("build");
    assert("run"@.len() != "test"@.len() && "run"@.len() != "bench"@.len());
    assert("test"@.len() != "bench"@.len());
    assert("bench"@[1] != "build"@[1]);
    assert("run"@.len() != "build"@.len() && "test"@.len() != "build"@.len());
}

} // verus!
