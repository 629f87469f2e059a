//! The decisions of a `cargo with` run, between the outside work that
//! the caller does: run cargo, read its JSON messages, start the tool.
//!
//! `cargo with <tool> [tool args] -- <cargo subcommand> [cargo args] [-- <args>]`
//! builds the artifact with cargo, then runs the tool with the artifact's
//! path (`{bin}`) and the trailing arguments (`{args}`).

use vstd::prelude::*;

use crate::cargo::{
    candidates, is_selection_error, parse_cmd_kind, select_buildopt,
    selectable, selected_path, BuildOpt, Cmd, CmdKind, CmdView,
};
use crate::error::Error;
use crate::text::{
    contains, lemma_replace_absent, occurs_in, replace, str_eq, str_views, string_views, trim,
    trim_seq, utf8_to_str,
};
use crate::with_command::{replace_bin, ChildCommand, WithCmd, expand_args_words, with_placeholders};

verus! {

/// Index of the first `--` among `words`, or their number when there is none.
pub open spec fn first_separator(words: Seq<Seq<char>>) -> int
    decreases words.len(),
{
    if words.len() == 0 {
        0
    } else if words[0] == "--"@ {
        0
    } else {
        1 + first_separator(words.drop_first())
    }
}

/// The words before the first `--`.
pub open spec fn before_separator(words: Seq<Seq<char>>) -> Seq<Seq<char>> {
    words.take(first_separator(words))
}

/// The words after the first `--`; none when there is no `--`.
pub open spec fn after_separator(words: Seq<Seq<char>>) -> Seq<Seq<char>> {
    if first_separator(words) < words.len() {
        words.skip(first_separator(words) + 1)
    } else {
        seq![]
    }
}

proof fn lemma_first_separator(words: Seq<Seq<char>>, k: int)
    requires
        0 <= k <= words.len(),
        forall|j: int| 0 <= j < k ==> words[j] != "--"@,
        k == words.len() || words[k] == "--"@,
    ensures
        first_separator(words) == k,
    decreases k,
{
    if k > 0 {
        lemma_first_separator(words.drop_first(), k - 1);
    }
}

/// Splits `words` at the first `--`: the words before it, and the words
/// after it (the `--` itself belongs to neither).
pub fn split_at_separator<'a>(words: &Vec<&'a str>) -> (res: (Vec<&'a str>, Vec<&'a str>))
    ensures
        str_views(res.0@) == before_separator(str_views(words@)),
        str_views(res.1@) == after_separator(str_views(words@)),
{
    let ghost ws = str_views(words@);
    let mut before: Vec<&'a str> = Vec::new();
    let mut i: usize = 0;
    while i < words.len() && !str_eq(words[i], "--")
        invariant
            ws == str_views(words@),
            i <= words@.len(),
            forall|j: int| 0 <= j < i ==> ws[j] != "--"@,
            str_views(before@) == ws.take(i as int),
        decreases words@.len() - i,
    {
        let ghost prev = str_views(before@);
        before.push(words[i]);
        assert(str_views(before@) =~= prev.push(ws[i as int]));
        assert(ws.take(i + 1) =~= ws.take(i as int).push(ws[i as int]));
        i = i + 1;
    }
    proof {
        lemma_first_separator(ws, i as int);
    }
    let mut after: Vec<&'a str> = Vec::new();
    if i < words.len() {
        let mut j: usize = i + 1;
        while j < words.len()
            invariant
                ws == str_views(words@),
                i < j <= words@.len(),
                str_views(after@) == ws.subrange(i + 1, j as int),
            decreases words@.len() - j,
        {
            let ghost prev = str_views(after@);
            after.push(words[j]);
            assert(str_views(after@) =~= prev.push(ws[j as int]));
            assert(ws.subrange(i + 1, j + 1) =~= ws.subrange(i + 1, j as int).push(ws[j as int]));
            j = j + 1;
        }
        assert(ws.subrange(i + 1, words@.len() as int) =~= ws.skip(i + 1));
    }
    (before, after)
}

} // verus!

verus! {

/// Whether `w` is one of `words`.
pub open spec fn has_word(words: Seq<Seq<char>>, w: Seq<char>) -> bool {
    exists|j: int| 0 <= j < words.len() && #[trigger] words[j] == w
}

/// What the command line asks: the command to run the artifact with, and
/// the cargo command, from the words of the `with` subcommand.
pub fn process_matches<'a>(
    subcommand_present: bool,
    with_cmd: Option<&'a str>,
    cargo_cmd_and_args: Option<Vec<&'a str>>,
) -> (res: Result<(WithCmd, Cmd<'a>), Error>)
    ensures
        !subcommand_present ==> res matches Err(Error::SubcommandMissing),
        subcommand_present && with_cmd is None ==> res matches Err(Error::WithCommandMissing),
        subcommand_present && with_cmd is Some && cargo_cmd_and_args is None ==> res matches Err(
            Error::CargoCommandMissing,
        ),
        subcommand_present && with_cmd is Some && cargo_cmd_and_args is Some ==> ({
            let words = str_views(cargo_cmd_and_args->0@);
            let cargo = before_separator(words);
            &&& cargo.len() == 0 ==> (res matches Err(Error::EmptyCargoCommand))
            &&& cargo.len() > 0 && parse_cmd_kind(cargo[0]) is None ==> (res matches Err(
                Error::UnknownSubcommand(s),
            ) && s@ == cargo[0])
            &&& cargo.len() > 0 && parse_cmd_kind(cargo[0]) is Some ==> (res matches Ok((w, c))
                && c@ == (CmdView { kind: parse_cmd_kind(cargo[0])->0, args: cargo.drop_first() })
                && w@ == expand_args_words(
                with_placeholders(trim_seq(with_cmd->0@)),
                after_separator(words),
            ))
        }),
{
    // A prelude to work around the fact that this is run as `cargo
    // with` and not `cargo-with`
    if !subcommand_present {
        return Err(Error::SubcommandMissing);
    }
    // The string describing how to envoke the child process
    let raw_with_cmd = match with_cmd {
        Some(s) => trim(s),
        None => {
            return Err(Error::WithCommandMissing);
        },
    };
    // everything after the first `--`
    let cargo_cmd_and_args = match cargo_cmd_and_args {
        Some(v) => v,
        None => {
            return Err(Error::CargoCommandMissing);
        },
    };
    let (cargo_cmd, trailing_args) = split_at_separator(&cargo_cmd_and_args);
    let cargo_cmd = Cmd::from_strs(cargo_cmd)?;
    let with_cmd = WithCmd::new(raw_with_cmd, trailing_args.as_slice());
    Ok((with_cmd, cargo_cmd))
}

/// The cargo command of a run, and the arguments after its `--`: the
/// words of `<cargo subcommand> [cargo args] [-- <args>]`.
pub fn cargo_command<'a>(cargo_cmd_and_args: &Vec<&'a str>) -> (res: Result<
    (Cmd<'a>, Vec<&'a str>),
    Error,
>)
    ensures
        ({
            let words = str_views(cargo_cmd_and_args@);
            let cargo = before_separator(words);
            &&& cargo.len() == 0 ==> (res matches Err(Error::EmptyCargoCommand))
            &&& cargo.len() > 0 && parse_cmd_kind(cargo[0]) is None ==> (res matches Err(
                Error::UnknownSubcommand(s),
            ) && s@ == cargo[0])
            &&& cargo.len() > 0 && parse_cmd_kind(cargo[0]) is Some ==> (res matches Ok((c, t))
                && c@ == (CmdView { kind: parse_cmd_kind(cargo[0])->0, args: cargo.drop_first() })
                && str_views(t@) == after_separator(words))
        }),
{
    let (cargo_cmd, trailing_args) = split_at_separator(cargo_cmd_and_args);
    let cmd = Cmd::from_strs(cargo_cmd)?;
    Ok((cmd, trailing_args))
}

} // verus!

verus! {

/// The tool's arguments with each word `{bin}` replaced by the artifact's
/// path and each word `{args}` by the trailing arguments.
pub open spec fn expand_exact_words(words: Seq<Seq<char>>, bin: Seq<char>, trailing: Seq<Seq<char>>) -> Seq<
    Seq<char>,
>
    decreases words.len(),
{
    if words.len() == 0 {
        seq![]
    } else {
        let rest = expand_exact_words(words.drop_last(), bin, trailing);
        let w = words.last();
        if w == "{bin}"@ {
            rest.push(bin)
        } else if w == "{args}"@ {
            rest + trailing
        } else {
            rest.push(w)
        }
    }
}

/// The arguments the tool gets in a run: the expanded words, then the
/// artifact's path unless a word was `{bin}`, then the trailing arguments
/// unless a word was `{args}`.
pub open spec fn exact_args(words: Seq<Seq<char>>, bin: Seq<char>, trailing: Seq<Seq<char>>) -> Seq<
    Seq<char>,
> {
    expand_exact_words(words, bin, trailing) + (if has_word(words, "{bin}"@) {
        seq![]
    } else {
        seq![bin]
    }) + (if has_word(words, "{args}"@) {
        seq![]
    } else {
        trailing
    })
}

proof fn lemma_has_word_step(words: Seq<Seq<char>>, i: int, w: Seq<char>)
    requires
        0 <= i < words.len(),
    ensures
        has_word(words.take(i + 1), w) == (has_word(words.take(i), w) || words[i] == w),
{
    if words[i] == w {
        assert(words.take(i + 1)[i] == w);
    }
    if has_word(words.take(i), w) {
        let j = choose|j: int| 0 <= j < i && #[trigger] words.take(i)[j] == w;
        assert(words.take(i + 1)[j] == w);
    }
    if has_word(words.take(i + 1), w) && words[i] != w {
        let j = choose|j: int| 0 <= j < i + 1 && #[trigger] words.take(i + 1)[j] == w;
        assert(words.take(i)[j] == w);
    }
}

/// Pushes the owned copies of `src` onto `dst`.
fn push_all(dst: &mut Vec<String>, src: &Vec<&str>)
    ensures
        string_views(final(dst)@) == string_views(old(dst)@) + str_views(src@),
{
    let ghost start = string_views(dst@);
    let mut t: usize = 0;
    while t < src.len()
        invariant
            t <= src@.len(),
            string_views(dst@) == start + str_views(src@).take(t as int),
        decreases src@.len() - t,
    {
        let ghost prev = string_views(dst@);
        dst.push(src[t].to_owned());
        assert(string_views(dst@) =~= prev.push(src@[t as int]@));
        assert(str_views(src@).take(t + 1) =~= str_views(src@).take(t as int).push(src@[t as int]@));
        t = t + 1;
    }
    assert(str_views(src@).take(src@.len() as int) =~= str_views(src@));
}

/// The arguments of the tool in a run: each word `{bin}` becomes the
/// artifact's path and each word `{args}` the trailing arguments; when no
/// word asks for them, the path and then the trailing arguments come last.
pub fn expand_exact(args: &Vec<&str>, artifact: &str, trailing: &Vec<&str>) -> (res: Vec<String>)
    ensures
        string_views(res@) == exact_args(str_views(args@), artifact@, str_views(trailing@)),
{
    let ghost words = str_views(args@);
    let ghost tr = str_views(trailing@);
    proof {
        reveal_strlit("{bin}");
        reveal_strlit("{args}");
        assert("{bin}"@.len() != "{args}"@.len());
    }
    let mut res: Vec<String> = Vec::new();
    let mut found_bin = false;
    let mut found_args = false;
    let mut i: usize = 0;
    while i < args.len()
        invariant
            words == str_views(args@),
            tr == str_views(trailing@),
            i <= args@.len(),
            "{bin}"@ != "{args}"@,
            string_views(res@) == expand_exact_words(words.take(i as int), artifact@, tr),
            found_bin == has_word(words.take(i as int), "{bin}"@),
            found_args == has_word(words.take(i as int), "{args}"@),
        decreases args@.len() - i,
    {
        let el = args[i];
        assert(words.take(i + 1).drop_last() =~= words.take(i as int));
        assert(words.take(i + 1).last() == el@);
        proof {
            lemma_has_word_step(words, i as int, "{bin}"@);
            lemma_has_word_step(words, i as int, "{args}"@);
        }
        if str_eq(el, "{bin}") {
            found_bin = true;
            let ghost prev = string_views(res@);
            res.push(artifact.to_owned());
            assert(string_views(res@) =~= prev.push(artifact@));
        } else if str_eq(el, "{args}") {
            found_args = true;
            push_all(&mut res, trailing);
        } else {
            let ghost prev = string_views(res@);
            res.push(el.to_owned());
            assert(string_views(res@) =~= prev.push(el@));
        }
        i = i + 1;
    }
    assert(words.take(args@.len() as int) =~= words);
    let ghost expanded = string_views(res@);
    if !found_bin {
        res.push(artifact.to_owned());
        assert(string_views(res@) =~= expanded.push(artifact@));
    }
    if !found_args {
        push_all(&mut res, trailing);
    }
    assert(string_views(res@) =~= exact_args(words, artifact@, tr));
    res
}

} // verus!

verus! {

/// The tool's arguments with `{bin}` replaced inside each word by the
/// artifact's path, and each word `{args}` by the trailing arguments.
pub open spec fn expand_runner_words(words: Seq<Seq<char>>, bin: Seq<char>, trailing: Seq<Seq<char>>) -> Seq<
    Seq<char>,
>
    decreases words.len(),
{
    if words.len() == 0 {
        seq![]
    } else {
        let rest = expand_runner_words(words.drop_last(), bin, trailing);
        let w = words.last();
        if w == "{args}"@ {
            rest + trailing
        } else {
            rest.push(replace_bin(w, bin))
        }
    }
}

/// Some word other than `{args}` mentions `{bin}`.
pub open spec fn mentions_bin(words: Seq<Seq<char>>) -> bool {
    exists|j: int| 0 <= j < words.len() && #[trigger] words[j] != "{args}"@ && occurs_in(words[j], "{bin}"@)
}

/// The arguments the tool gets when it replaces the process: the expanded
/// words, then the artifact's path unless a word mentioned `{bin}`, then
/// the trailing arguments unless a word was `{args}`.
pub open spec fn runner_args(words: Seq<Seq<char>>, bin: Seq<char>, trailing: Seq<Seq<char>>) -> Seq<
    Seq<char>,
> {
    expand_runner_words(words, bin, trailing) + (if mentions_bin(words) {
        seq![]
    } else {
        seq![bin]
    }) + (if has_word(words, "{args}"@) {
        seq![]
    } else {
        trailing
    })
}

proof fn lemma_mentions_bin_step(words: Seq<Seq<char>>, i: int)
    requires
        0 <= i < words.len(),
    ensures
        mentions_bin(words.take(i + 1)) == (mentions_bin(words.take(i)) || (words[i] != "{args}"@
            && occurs_in(words[i], "{bin}"@))),
{
    if words[i] != "{args}"@ && occurs_in(words[i], "{bin}"@) {
        assert(words.take(i + 1)[i] == words[i]);
    }
    if mentions_bin(words.take(i)) {
        let j = choose|j: int| 0 <= j < i && #[trigger] words.take(i)[j] != "{args}"@ && occurs_in(words.take(i)[j], "{bin}"@);
        assert(words.take(i + 1)[j] == words.take(i)[j]);
    }
    if mentions_bin(words.take(i + 1)) && !(words[i] != "{args}"@ && occurs_in(words[i], "{bin}"@)) {
        let j = choose|j: int| 0 <= j < i + 1 && #[trigger] words.take(i + 1)[j] != "{args}"@ && occurs_in(words.take(i + 1)[j], "{bin}"@);
        assert(words.take(i)[j] == words.take(i + 1)[j]);
    }
}

/// The arguments of the tool when it replaces the process: a word
/// `{args}` becomes the trailing arguments, `{bin}` inside any other word
/// becomes the artifact's path; when no word asks for them, the path and
/// then the trailing arguments come last.
pub fn expand_placeholders(args: &Vec<&str>, artifact: &str, trailing: &Vec<&str>) -> (res: Vec<String>)
    ensures
        string_views(res@) == runner_args(str_views(args@), artifact@, str_views(trailing@)),
{
    let ghost words = str_views(args@);
    let ghost tr = str_views(trailing@);
    proof {
        reveal_strlit("{bin}");
    }
    let mut res: Vec<String> = Vec::new();
    let mut found_bin = false;
    let mut found_args = false;
    let mut i: usize = 0;
    while i < args.len()
        invariant
            words == str_views(args@),
            tr == str_views(trailing@),
            i <= args@.len(),
            "{bin}"@.len() > 0,
            string_views(res@) == expand_runner_words(words.take(i as int), artifact@, tr),
            found_bin == mentions_bin(words.take(i as int)),
            found_args == has_word(words.take(i as int), "{args}"@),
        decreases args@.len() - i,
    {
        let arg = args[i];
        assert(words.take(i + 1).drop_last() =~= words.take(i as int));
        assert(words.take(i + 1).last() == arg@);
        proof {
            lemma_mentions_bin_step(words, i as int);
            lemma_has_word_step(words, i as int, "{args}"@);
        }
        if str_eq(arg, "{args}") {
            found_args = true;
            push_all(&mut res, trailing);
        } else {
            found_bin = found_bin || contains(arg, "{bin}");
            let ghost prev = string_views(res@);
            let replaced = replace(arg, "{bin}", artifact);
            res.push(replaced);
            assert(string_views(res@) =~= prev.push(replaced@));
        }
        i = i + 1;
    }
    assert(words.take(args@.len() as int) =~= words);
    let ghost expanded = string_views(res@);
    if !found_bin {
        res.push(artifact.to_owned());
        assert(string_views(res@) =~= expanded.push(artifact@));
    }
    if !found_args {
        push_all(&mut res, trailing);
    }
    assert(string_views(res@) =~= runner_args(words, artifact@, tr));
    res
}

} // verus!

verus! {

/// The tool to start in a run, once cargo has reported the artifacts it
/// built: `with_cmd` is the tool and its arguments, `trailing` the
/// arguments after the cargo command's `--`. The artifact is the first
/// file of the single candidate; `{bin}` and `{args}` are whole words.
/// Several candidates are listed one per line, without a line feed after
/// the last one.
pub fn child_for_run(opts: &Vec<BuildOpt>, kind: CmdKind, with_cmd: &Vec<&str>, trailing: &Vec<&str>) -> (res: Result<
    ChildCommand,
    Error,
>)
    requires
        selectable(opts@, kind),
    ensures
        candidates(opts@, kind).len() != 1 ==> (res matches Err(e) && is_selection_error(
            e,
            opts@,
            kind,
            false,
        )),
        candidates(opts@, kind).len() == 1 && !vstd::utf8::valid_utf8(selected_path(opts@, kind))
            ==> res matches Err(Error::ArtifactPathNotUtf8),
        candidates(opts@, kind).len() == 1 && vstd::utf8::valid_utf8(selected_path(opts@, kind))
            && with_cmd@.len() == 0 ==> res matches Err(Error::EmptyWithCommand),
        candidates(opts@, kind).len() == 1 && vstd::utf8::valid_utf8(selected_path(opts@, kind))
            && with_cmd@.len() > 0 ==> (res matches Ok(c) && c.program@ == with_cmd@[0]@
            && string_views(c.args@) == exact_args(
            str_views(with_cmd@).drop_first(),
            vstd::utf8::decode_utf8(selected_path(opts@, kind)),
            str_views(trailing@),
        )),
{
    // Select the wanted buildopt; several candidates are listed one per
    // line, without a line feed after the last one
    let buildopt = match select_buildopt(opts, kind) {
        Ok(b) => b,
        Err(Error::MultipleCandidates { candidates, test, terminated: _ }) => {
            return Err(Error::MultipleCandidates { candidates, test, terminated: false });
        },
        Err(e) => {
            return Err(e);
        },
    };
    let artifact_path = match utf8_to_str(buildopt.filenames[0].as_slice()) {
        Some(p) => p,
        None => {
            return Err(Error::ArtifactPathNotUtf8);
        },
    };
    // The name of the binary to run on the artifact
    if with_cmd.len() == 0 {
        return Err(Error::EmptyWithCommand);
    }
    let cmd = with_cmd[0];
    // The remaining elements are the arguments to the binary
    let mut args: Vec<&str> = Vec::new();
    let mut i: usize = 1;
    while i < with_cmd.len()
        invariant
            1 <= i <= with_cmd@.len(),
            args@ == with_cmd@.subrange(1, i as int),
        decreases with_cmd@.len() - i,
    {
        args.push(with_cmd[i]);
        i = i + 1;
    }
    assert(str_views(args@) =~= str_views(with_cmd@).drop_first());
    let expanded = expand_exact(&args, artifact_path, trailing);
    Ok(ChildCommand { program: cmd.to_owned(), args: expanded })
}

/// The tool that replaces the process in a run, once cargo has reported
/// the artifacts it built: as [`child_for_run`], but `{bin}` is replaced
/// inside every argument that is not `{args}`.
pub fn child_for_runner(opts: &Vec<BuildOpt>, kind: CmdKind, with_cmd: &Vec<&str>, trailing: &Vec<&str>) -> (res: Result<
    ChildCommand,
    Error,
>)
    requires
        selectable(opts@, kind),
    ensures
        candidates(opts@, kind).len() != 1 ==> (res matches Err(e) && is_selection_error(
            e,
            opts@,
            kind,
            true,
        )),
        candidates(opts@, kind).len() == 1 && !vstd::utf8::valid_utf8(selected_path(opts@, kind))
            ==> res matches Err(Error::ArtifactPathNotUtf8),
        candidates(opts@, kind).len() == 1 && vstd::utf8::valid_utf8(selected_path(opts@, kind))
            && with_cmd@.len() == 0 ==> res matches Err(Error::EmptyWithCommand),
        candidates(opts@, kind).len() == 1 && vstd::utf8::valid_utf8(selected_path(opts@, kind))
            && with_cmd@.len() > 0 ==> (res matches Ok(c) && c.program@ == with_cmd@[0]@
            && string_views(c.args@) == runner_args(
            str_views(with_cmd@).drop_first(),
            vstd::utf8::decode_utf8(selected_path(opts@, kind)),
            str_views(trailing@),
        )),
{
    // Select the wanted buildopt
    let buildopt = match select_buildopt(opts, kind) {
        Ok(b) => b,
        Err(e) => {
            return Err(e);
        },
    };
    let artifact = buildopt.artifact()?;
    let artifact_str = match utf8_to_str(artifact.as_slice()) {
        Some(p) => p,
        None => {
            return Err(Error::ArtifactPathNotUtf8);
        },
    };
    // The name of the binary to run on the artifact
    if with_cmd.len() == 0 {
        return Err(Error::EmptyWithCommand);
    }
    let cmd = with_cmd[0];
    let mut args: Vec<&str> = Vec::new();
    let mut i: usize = 1;
    while i < with_cmd.len()
        invariant
            1 <= i <= with_cmd@.len(),
            args@ == with_cmd@.subrange(1, i as int),
        decreases with_cmd@.len() - i,
    {
        args.push(with_cmd[i]);
        i = i + 1;
    }
    assert(str_views(args@) =~= str_views(with_cmd@).drop_first());
    let expanded = expand_placeholders(&args, artifact_str, trailing);
    Ok(ChildCommand { program: cmd.to_owned(), args: expanded })
}

/// The command that runs the artifact, once cargo has reported the
/// artifacts it built: the command given on the command line with every
/// `{bin}` replaced by the path of the single candidate's first file.
pub fn child_for_with(opts: &Vec<BuildOpt>, kind: CmdKind, with_cmd: &WithCmd) -> (res: Result<
    ChildCommand,
    Error,
>)
    requires
        selectable(opts@, kind),
    ensures
        candidates(opts@, kind).len() != 1 ==> (res matches Err(e) && is_selection_error(
            e,
            opts@,
            kind,
            true,
        )),
        candidates(opts@, kind).len() == 1 && !vstd::utf8::valid_utf8(selected_path(opts@, kind))
            ==> res matches Err(Error::BinaryPathNotUtf8),
        candidates(opts@, kind).len() == 1 && vstd::utf8::valid_utf8(selected_path(opts@, kind))
            && with_cmd@.len() == 0 ==> res matches Err(Error::NoChildCommand),
        candidates(opts@, kind).len() == 1 && vstd::utf8::valid_utf8(selected_path(opts@, kind))
            && with_cmd@.len() > 0 ==> (res matches Ok(c) && c.program@ == replace_bin(
            with_cmd@[0],
            vstd::utf8::decode_utf8(selected_path(opts@, kind)),
        ) && string_views(c.args@) == with_cmd@.drop_first().map_values(
            |w: Seq<char>| replace_bin(w, vstd::utf8::decode_utf8(selected_path(opts@, kind))),
        )),
{
    let buildopt = match select_buildopt(opts, kind) {
        Ok(b) => b,
        Err(e) => {
            return Err(e);
        },
    };
    let artifact_path = buildopt.artifact()?;
    let artifact = match utf8_to_str(artifact_path.as_slice()) {
        Some(p) => p,
        None => {
            return Err(Error::BinaryPathNotUtf8);
        },
    };
    with_cmd.child_command(artifact)
}

} // verus!

verus! {

proof fn lemma_exact_plain(words: Seq<Seq<char>>, bin: Seq<char>, trailing: Seq<Seq<char>>)
    requires
        !has_word(words, "{bin}"@),
        !has_word(words, "{args}"@),
    ensures
        expand_exact_words(words, bin, trailing) == words,
    decreases words.len(),
{
    if words.len() > 0 {
        let p = words.drop_last();
        assert(!has_word(p, "{bin}"@)) by {
            if has_word(p, "{bin}"@) {
                let j = choose|j: int| 0 <= j < p.len() && #[trigger] p[j] == "{bin}"@;
                assert(words[j] == "{bin}"@);
            }
        }
        assert(!has_word(p, "{args}"@)) by {
            if has_word(p, "{args}"@) {
                let j = choose|j: int| 0 <= j < p.len() && #[trigger] p[j] == "{args}"@;
                assert(words[j] == "{args}"@);
            }
        }
        lemma_exact_plain(p, bin, trailing);
        assert(words[words.len() - 1] != "{bin}"@);
        assert(words[words.len() - 1] != "{args}"@);
        assert(p.push(words.last()) =~= words);
    }
}

/// When the tool's words name neither `{bin}` nor `{args}`, a run passes
/// them unchanged, then the artifact's path, then the trailing arguments.
pub proof fn law_run_default_placement(words: Seq<Seq<char>>, bin: Seq<char>, trailing: Seq<Seq<char>>)
    requires
        !has_word(words, "{bin}"@),
        !has_word(words, "{args}"@),
    ensures
        exact_args(words, bin, trailing) == words + seq![bin] + trailing,
{
    lemma_exact_plain(words, bin, trailing);
}

proof fn lemma_runner_plain(words: Seq<Seq<char>>, bin: Seq<char>, trailing: Seq<Seq<char>>)
    requires
        forall|i: int| 0 <= i < words.len() ==> !occurs_in(#[trigger] words[i], "{bin}"@),
        !has_word(words, "{args}"@),
    ensures
        expand_runner_words(words, bin, trailing) == words,
        !mentions_bin(words),
    decreases words.len(),
{
    reveal_strlit("{bin}");
    if words.len() > 0 {
        let p = words.drop_last();
        assert(!has_word(p, "{args}"@)) by {
            if has_word(p, "{args}"@) {
                let j = choose|j: int| 0 <= j < p.len() && #[trigger] p[j] == "{args}"@;
                assert(words[j] == "{args}"@);
            }
        }
        assert forall|i: int| 0 <= i < p.len() implies !occurs_in(#[trigger] p[i], "{bin}"@) by {
            assert(p[i] == words[i]);
        }
        lemma_runner_plain(p, bin, trailing);
        assert(words[words.len() - 1] != "{args}"@);
        lemma_replace_absent(words.last(), "{bin}"@, bin);
        assert(p.push(words.last()) =~= words);
    }
}

/// When no word of the tool mentions `{bin}` and none is `{args}`, the
/// tool that replaces the process gets its words unchanged, then the
/// artifact's path, then the trailing arguments.
pub proof fn law_runner_default_placement(words: Seq<Seq<char>>, bin: Seq<char>, trailing: Seq<Seq<char>>)
    requires
        forall|i: int| 0 <= i < words.len() ==> !occurs_in(#[trigger] words[i], "{bin}"@),
        !has_word(words, "{args}"@),
    ensures
        runner_args(words, bin, trailing) == words + seq![bin] + trailing,
{
    lemma_runner_plain(words, bin, trailing);
}

} // verus!

verus! {

proof fn lemma_has_word_concat(a: Seq<Seq<char>>, b: Seq<Seq<char>>, w: Seq<char>)
    ensures
        has_word(a + b, w) == (has_word(a, w) || has_word(b, w)),
{
    if has_word(a, w) {
        let j = choose|j: int| 0 <= j < a.len() && #[trigger] a[j] == w;
        assert((a + b)[j] == w);
    }
    if has_word(b, w) {
        let j = choose|j: int| 0 <= j < b.len() && #[trigger] b[j] == w;
        assert((a + b)[a.len() + j] == w);
    }
    if has_word(a + b, w) {
        let j = choose|j: int| 0 <= j < (a + b).len() && #[trigger] (a + b)[j] == w;
        if j < a.len() {
            assert(a[j] == w);
        } else {
            assert(b[j - a.len()] == w);
        }
    }
}

proof fn lemma_exact_concat(a: Seq<Seq<char>>, b: Seq<Seq<char>>, bin: Seq<char>, t: Seq<Seq<char>>)
    ensures
        expand_exact_words(a + b, bin, t) == expand_exact_words(a, bin, t) + expand_exact_words(b, bin, t),
    decreases b.len(),
{
    if b.len() == 0 {
        assert(a + b =~= a);
        assert(expand_exact_words(a, bin, t) + expand_exact_words(b, bin, t) =~= expand_exact_words(a, bin, t));
    } else {
        let bp = b.drop_last();
        lemma_exact_concat(a, bp, bin, t);
        assert((a + b).drop_last() =~= a + bp);
        assert((a + b).last() == b.last());
        let ea = expand_exact_words(a, bin, t);
        let eb = expand_exact_words(bp, bin, t);
        assert((ea + eb) + t =~= ea + (eb + t));
        assert((ea + eb).push(bin) =~= ea + eb.push(bin));
        assert((ea + eb).push(b.last()) =~= ea + eb.push(b.last()));
    }
}

proof fn lemma_exact_single(w: Seq<char>, bin: Seq<char>, t: Seq<Seq<char>>)
    ensures
        expand_exact_words(seq![w], bin, t) == (if w == "{bin}"@ {
            seq![bin]
        } else if w == "{args}"@ {
            t
        } else {
            seq![w]
        }),
{
    assert(seq![w].drop_last() =~= Seq::<Seq<char>>::empty());
    assert(seq![w].last() == w);
    assert(expand_exact_words(Seq::<Seq<char>>::empty(), bin, t) == Seq::<Seq<char>>::empty());
    assert(Seq::<Seq<char>>::empty() + t =~= t);
    assert(Seq::<Seq<char>>::empty().push(bin) =~= seq![bin]);
    assert(Seq::<Seq<char>>::empty().push(w) =~= seq![w]);
}

/// In a run, when no word of the tool is `{args}`, the tool's arguments
/// end with all the trailing arguments, in order, whether or not a word
/// was `{bin}`.
pub proof fn law_run_trailing_last(words: Seq<Seq<char>>, bin: Seq<char>, trailing: Seq<Seq<char>>)
    requires
        !has_word(words, "{args}"@),
    ensures
        exact_args(words, bin, trailing).len() >= trailing.len(),
        exact_args(words, bin, trailing).subrange(
            exact_args(words, bin, trailing).len() - trailing.len(),
            exact_args(words, bin, trailing).len() as int,
        ) == trailing,
{
    let r = exact_args(words, bin, trailing);
    let head = expand_exact_words(words, bin, trailing) + (if has_word(words, "{bin}"@) {
        seq![]
    } else {
        seq![bin]
    });
    assert(r == head + trailing);
    assert(r.subrange(head.len() as int, r.len() as int) =~= trailing);
}

/// In a run, a word `{args}` among words that name no placeholder gives
/// way to the trailing arguments right there, and the artifact's path
/// comes last.
pub proof fn law_run_args_in_place(
    pre: Seq<Seq<char>>,
    post: Seq<Seq<char>>,
    bin: Seq<char>,
    trailing: Seq<Seq<char>>,
)
    requires
        !has_word(pre, "{bin}"@),
        !has_word(pre, "{args}"@),
        !has_word(post, "{bin}"@),
        !has_word(post, "{args}"@),
    ensures
        exact_args(pre + seq!["{args}"@] + post, bin, trailing) == pre + trailing + post + seq![bin],
{
    reveal_strlit("{bin}");
    reveal_strlit("{args}");
    assert("{bin}"@.len() != "{args}"@.len());
    let mid = seq!["{args}"@];
    let words = pre + mid + post;
    lemma_exact_concat(pre + mid, post, bin, trailing);
    lemma_exact_concat(pre, mid, bin, trailing);
    lemma_exact_single("{args}"@, bin, trailing);
    lemma_exact_plain(pre, bin, trailing);
    lemma_exact_plain(post, bin, trailing);
    lemma_has_word_concat(pre + mid, post, "{bin}"@);
    lemma_has_word_concat(pre, mid, "{bin}"@);
    lemma_has_word_concat(pre + mid, post, "{args}"@);
    lemma_has_word_concat(pre, mid, "{args}"@);
    assert(mid[0] == "{args}"@);
    assert(!has_word(mid, "{bin}"@));
    assert(has_word(words, "{args}"@));
    assert(exact_args(words, bin, trailing) =~= pre + trailing + post + seq![bin]);
}

/// In a run, a word `{bin}` among words that name no placeholder gives way
/// to the artifact's path right there, and the trailing arguments come
/// last.
pub proof fn law_run_bin_in_place(
    pre: Seq<Seq<char>>,
    post: Seq<Seq<char>>,
    bin: Seq<char>,
    trailing: Seq<Seq<char>>,
)
    requires
        !has_word(pre, "{bin}"@),
        !has_word(pre, "{args}"@),
        !has_word(post, "{bin}"@),
        !has_word(post, "{args}"@),
    ensures
        exact_args(pre + seq!["{bin}"@] + post, bin, trailing) == pre + seq![bin] + post + trailing,
{
    reveal_strlit("{bin}");
    reveal_strlit("{args}");
    assert("{bin}"@.len() != "{args}"@.len());
    let mid = seq!["{bin}"@];
    let words = pre + mid + post;
    lemma_exact_concat(pre + mid, post, bin, trailing);
    lemma_exact_concat(pre, mid, bin, trailing);
    lemma_exact_single("{bin}"@, bin, trailing);
    lemma_exact_plain(pre, bin, trailing);
    lemma_exact_plain(post, bin, trailing);
    lemma_has_word_concat(pre + mid, post, "{bin}"@);
    lemma_has_word_concat(pre, mid, "{bin}"@);
    lemma_has_word_concat(pre + mid, post, "{args}"@);
    lemma_has_word_concat(pre, mid, "{args}"@);
    assert(mid[0] == "{bin}"@);
    assert(!has_word(mid, "{args}"@));
    assert(has_word(words, "{bin}"@));
    assert(exact_args(words, bin, trailing) =~= pre + seq![bin] + post + trailing);
}

} // verus!

verus! {

proof fn lemma_runner_without_args(words: Seq<Seq<char>>, bin: Seq<char>, t: Seq<Seq<char>>)
    requires
        !has_word(words, "{args}"@),
    ensures
        expand_runner_words(words, bin, t) == words.map_values(|w: Seq<char>| replace_bin(w, bin)),
    decreases words.len(),
{
    if words.len() > 0 {
        let p = words.drop_last();
        assert(!has_word(p, "{args}"@)) by {
            if has_word(p, "{args}"@) {
                let j = choose|j: int| 0 <= j < p.len() && #[trigger] p[j] == "{args}"@;
                assert(words[j] == "{args}"@);
            }
        }
        lemma_runner_without_args(p, bin, t);
        assert(words[words.len() - 1] != "{args}"@);
        assert(words.map_values(|w: Seq<char>| replace_bin(w, bin)) =~= p.map_values(
            |w: Seq<char>| replace_bin(w, bin),
        ).push(replace_bin(words.last(), bin)));
    }
}

/// When the tool replaces the process and no word of it is `{args}`, its
/// arguments end with all the trailing arguments, in order, whether or not
/// a word mentions `{bin}`.
pub proof fn law_runner_trailing_last(words: Seq<Seq<char>>, bin: Seq<char>, trailing: Seq<Seq<char>>)
    requires
        !has_word(words, "{args}"@),
    ensures
        runner_args(words, bin, trailing).len() >= trailing.len(),
        runner_args(words, bin, trailing).subrange(
            runner_args(words, bin, trailing).len() - trailing.len(),
            runner_args(words, bin, trailing).len() as int,
        ) == trailing,
{
    let r = runner_args(words, bin, trailing);
    let head = expand_runner_words(words, bin, trailing) + (if mentions_bin(words) {
        seq![]
    } else {
        seq![bin]
    });
    assert(r == head + trailing);
    assert(r.subrange(head.len() as int, r.len() as int) =~= trailing);
}

/// When the tool replaces the process, no word is `{args}` and some word
/// mentions `{bin}`: every word has `{bin}` replaced by the artifact's
/// path, the path is not added again, and the trailing arguments follow.
pub proof fn law_runner_bin_mentioned(words: Seq<Seq<char>>, bin: Seq<char>, trailing: Seq<Seq<char>>)
    requires
        !has_word(words, "{args}"@),
        exists|j: int| 0 <= j < words.len() && occurs_in(#[trigger] words[j], "{bin}"@),
    ensures
        runner_args(words, bin, trailing) == words.map_values(|w: Seq<char>| replace_bin(w, bin))
            + trailing,
{
    let j = choose|j: int| 0 <= j < words.len() && occurs_in(#[trigger] words[j], "{bin}"@);
    assert(words[j] != "{args}"@);
    assert(mentions_bin(words));
    lemma_runner_without_args(words, bin, trailing);
    let m = words.map_values(|w: Seq<char>| replace_bin(w, bin));
    assert(runner_args(words, bin, trailing) =~= m + Seq::<Seq<char>>::empty() + trailing);
    assert(m + Seq::<Seq<char>>::empty() =~= m);
}

/// When the tool replaces the process, a word `{args}` among words that
/// neither mention `{bin}` nor are `{args}` gives way to the trailing
/// arguments right there, and the artifact's path comes last.
pub proof fn law_runner_args_in_place(
    pre: Seq<Seq<char>>,
    post: Seq<Seq<char>>,
    bin: Seq<char>,
    trailing: Seq<Seq<char>>,
)
    requires
        forall|i: int| 0 <= i < pre.len() ==> !occurs_in(#[trigger] pre[i], "{bin}"@),
        forall|i: int| 0 <= i < post.len() ==> !occurs_in(#[trigger] post[i], "{bin}"@),
        !has_word(pre, "{args}"@),
        !has_word(post, "{args}"@),
    ensures
        runner_args(pre + seq!["{args}"@] + post, bin, trailing) == pre + trailing + post + seq![bin],
{
    reveal_strlit("{args}");
    let mid = seq!["{args}"@];
    let words = pre + mid + post;
    lemma_runner_plain(pre, bin, trailing);
    lemma_runner_plain(post, bin, trailing);
    // expansion splits over the three parts
    assert(words.len() == pre.len() + 1 + post.len());
    lemma_runner_concat(pre + mid, post, bin, trailing);
    lemma_runner_concat(pre, mid, bin, trailing);
    assert(mid.drop_last() =~= Seq::<Seq<char>>::empty());
    assert(mid.last() == "{args}"@);
    assert(expand_runner_words(Seq::<Seq<char>>::empty(), bin, trailing) == Seq::<Seq<char>>::empty());
    assert(expand_runner_words(mid, bin, trailing) =~= trailing);
    assert(!mentions_bin(words)) by {
        if mentions_bin(words) {
            let j = choose|j: int| 0 <= j < words.len() && #[trigger] words[j] != "{args}"@ && occurs_in(words[j], "{bin}"@);
            if j < pre.len() {
                assert(words[j] == pre[j]);
            } else if j == pre.len() {
                assert(words[j] == "{args}"@);
            } else {
                assert(words[j] == post[j - pre.len() - 1]);
            }
        }
    }
    lemma_has_word_concat(pre, mid, "{args}"@);
    lemma_has_word_concat(pre + mid, post, "{args}"@);
    assert(mid[0] == "{args}"@);
    assert(runner_args(words, bin, trailing) =~= pre + trailing + post + seq![bin]);
}

proof fn lemma_runner_concat(a: Seq<Seq<char>>, b: Seq<Seq<char>>, bin: Seq<char>, t: Seq<Seq<char>>)
    ensures
        expand_runner_words(a + b, bin, t) == expand_runner_words(a, bin, t) + expand_runner_words(b, bin, t),
    decreases b.len(),
{
    if b.len() == 0 {
        assert(a + b =~= a);
        assert(expand_runner_words(a, bin, t) + expand_runner_words(b, bin, t) =~= expand_runner_words(a, bin, t));
    } else {
        let bp = b.drop_last();
        lemma_runner_concat(a, bp, bin, t);
        assert((a + b).drop_last() =~= a + bp);
        assert((a + b).last() == b.last());
        let ea = expand_runner_words(a, bin, t);
        let eb = expand_runner_words(bp, bin, t);
        assert((ea + eb) + t =~= ea + (eb + t));
        assert((ea + eb).push(replace_bin(b.last(), bin)) =~= ea + eb.push(replace_bin(b.last(), bin)));
    }
}

} // verus!

verus! {

proof fn lemma_first_separator_bounds(words: Seq<Seq<char>>)
    ensures
        0 <= first_separator(words) <= words.len(),
        forall|j: int| 0 <= j < first_separator(words) ==> words[j] != "--"@,
        first_separator(words) < words.len() ==> words[first_separator(words)] == "--"@,
    decreases words.len(),
{
    if words.len() > 0 && words[0] != "--"@ {
        let rest = words.drop_first();
        lemma_first_separator_bounds(rest);
        assert forall|j: int| 0 <= j < first_separator(words) implies words[j] != "--"@ by {
            if j > 0 {
                assert(words[j] == rest[j - 1]);
            }
        }
    }
}

/// The words of the cargo part of the command line split at the first
/// `--`: when there is one, the words before it, the `--` and the words
/// after it make up all the words, and no `--` stands before it; when
/// there is none, all the words are the cargo command and none trail.
pub proof fn law_separator_split(words: Seq<Seq<char>>)
    ensures
        has_word(words, "--"@) ==> before_separator(words) + seq!["--"@] + after_separator(words)
            == words,
        !has_word(before_separator(words), "--"@),
        !has_word(words, "--"@) ==> before_separator(words) == words && after_separator(words)
            == Seq::<Seq<char>>::empty(),
{
    lemma_first_separator_bounds(words);
    let k = first_separator(words);
    let before = before_separator(words);
    if has_word(before, "--"@) {
        let j = choose|j: int| 0 <= j < before.len() && #[trigger] before[j] == "--"@;
        assert(words[j] == before[j]);
    }
    if has_word(words, "--"@) {
        let j = choose|j: int| 0 <= j < words.len() && #[trigger] words[j] == "--"@;
        assert(k <= j);
        assert(k < words.len());
        assert(before + seq!["--"@] + after_separator(words) =~= words);
    } else {
        if k < words.len() {
            assert(words[k] == "--"@);
        }
        assert(before =~= words);
    }
}

} // verus!
