//! The command that runs the artifact: `cargo with "<with-cmd>" -- ...`,
//! with its `{bin}` and `{args}` placeholders.

use vstd::prelude::*;

use crate::error::Error;
use crate::text::{
    contains, is_ws, join_spaces, join_with_spaces, lemma_occurs_in_subrange, lemma_replace_absent,
    lemma_replace_args_keeps_bin, lemma_replace_whole, lemma_split_ws_keeps,
    lemma_split_ws_pieces, occurs_in, replace, replace_all,
    split_whitespace, split_ws, str_eq, str_views, string_views,
};

verus! {

/// The words of the command with `{args}` expanded: a word `{args}`
/// becomes the trailing arguments, one word each; inside any other word,
/// every `{args}` becomes the trailing arguments joined by spaces.
pub open spec fn expand_args_words(words: Seq<Seq<char>>, trailing: Seq<Seq<char>>) -> Seq<
    Seq<char>,
>
    decreases words.len(),
{
    if words.len() == 0 {
        seq![]
    } else {
        let rest = expand_args_words(words.drop_last(), trailing);
        if words.last() == "{args}"@ {
            rest + trailing
        } else {
            rest.push(replace_all(words.last(), "{args}"@, join_spaces(trailing)))
        }
    }
}

/// The words of a raw command, with `{bin}` and then `{args}` appended when
/// the raw command does not mention them.
pub open spec fn with_placeholders(raw: Seq<char>) -> Seq<Seq<char>> {
    let words = split_ws(raw);
    let with_bin = if occurs_in(raw, "{bin}"@) {
        words
    } else {
        words.push("{bin}"@)
    };
    if occurs_in(raw, "{args}"@) {
        with_bin
    } else {
        with_bin.push("{args}"@)
    }
}

/// A program and its arguments, ready to be started.
#[derive(Debug)]
pub struct ChildCommand {
    pub program: String,
    pub args: Vec<String>,
}

/// The command given to run the artifact with, split into words; the first
/// word is the executable. `{args}` is already expanded, `{bin}` not yet.
pub struct WithCmd {
    split_cmd: Vec<String>,
}

impl View for WithCmd {
    type V = Seq<Seq<char>>;

    closed spec fn view(&self) -> Seq<Seq<char>> {
        string_views(self.split_cmd@)
    }
}

/// `s` with every `{bin}` replaced by the artifact's path.
pub open spec fn replace_bin(s: Seq<char>, bin_path: Seq<char>) -> Seq<char> {
    replace_all(s, "{bin}"@, bin_path)
}

impl WithCmd {
    /// Parse the command string which was passed in as the first
    /// argument. Currently, we just split on whitespaces which is not
    /// correct if there are quotes
    pub fn new<'a>(raw: &'a str, trailing_args: &[&'a str]) -> (res: Self)
        ensures
            res@ == expand_args_words(with_placeholders(raw@), str_views(trailing_args@)),
    {
        // Example of a raw at this point "echo {bin} something"
        // Splitting on whitspaces is bad but simple
        let mut split_raw = split_whitespace(raw);
        // Make sure that we have {bin} and {args} somewhere. We look
        // for it in the original string to not get into trouble with
        // a whitespaces.
        if !contains(raw, "{bin}") {
            let ghost before = str_views(split_raw@);
            split_raw.push("{bin}");
            assert(str_views(split_raw@) =~= before.push("{bin}"@));
        }
        if !contains(raw, "{args}") {
            let ghost before = str_views(split_raw@);
            split_raw.push("{args}");
            assert(str_views(split_raw@) =~= before.push("{args}"@));
        }
        let ghost words = str_views(split_raw@);
        assert(words == with_placeholders(raw@));
        let ghost trailing = str_views(trailing_args@);
        let joined = join_with_spaces(trailing_args);
        proof {
            reveal_strlit("{args}");
        }
        // Construct final split args and replace {args}
        let mut split_cmd: Vec<String> = Vec::new();
        let mut i: usize = 0;
        while i < split_raw.len()
            invariant
                words == str_views(split_raw@),
                trailing == str_views(trailing_args@),
                joined@ == join_spaces(trailing),
                "{args}"@.len() > 0,
                i <= split_raw@.len(),
                string_views(split_cmd@) == expand_args_words(words.take(i as int), trailing),
            decreases split_raw@.len() - i,
        {
            let el = split_raw[i];
            assert(words.take(i + 1).drop_last() =~= words.take(i as int));
            assert(words.take(i + 1).last() == el@);
            if str_eq(el, "{args}") {
                let mut t: usize = 0;
                let ghost base = string_views(split_cmd@);
                while t < trailing_args.len()
                    invariant
                        trailing == str_views(trailing_args@),
                        t <= trailing_args@.len(),
                        string_views(split_cmd@) == base + trailing.take(t as int),
                    decreases trailing_args@.len() - t,
                {
                    let ghost prev = string_views(split_cmd@);
                    split_cmd.push(trailing_args[t].to_owned());
                    assert(string_views(split_cmd@) =~= prev.push(trailing_args@[t as int]@));
                    assert(trailing.take(t + 1) =~= trailing.take(t as int).push(
                        trailing_args@[t as int]@,
                    ));
                    t = t + 1;
                }
                assert(trailing.take(trailing_args@.len() as int) =~= trailing);
            } else {
                let ghost prev = string_views(split_cmd@);
                let w = replace(el, "{args}", joined.as_str());
                split_cmd.push(w);
                assert(string_views(split_cmd@) =~= prev.push(w@));
            }
            i = i + 1;
        }
        assert(words.take(split_raw@.len() as int) =~= words);
        WithCmd { split_cmd }
    }

    /// Produce the ready-to-execute command with all occurrences of
    /// {bin} replaced by the artifact's path: the first word is the
    /// program, the others are its arguments.
    pub fn child_command(&self, bin_path: &str) -> (res: Result<ChildCommand, Error>)
        ensures
            self@.len() == 0 ==> res matches Err(Error::NoChildCommand),
            self@.len() > 0 ==> (res matches Ok(c) && c.program@ == replace_bin(self@[0], bin_path@)
                && string_views(c.args@) == self@.drop_first().map_values(
                |w: Seq<char>| replace_bin(w, bin_path@),
            )),
    {
        if self.split_cmd.len() == 0 {
            return Err(Error::NoChildCommand);
        }
        proof {
            reveal_strlit("{bin}");
        }
        let program = replace(self.split_cmd[0].as_str(), "{bin}", bin_path);
        let ghost expected = self@.drop_first().map_values(|w: Seq<char>| replace_bin(w, bin_path@));
        let mut args: Vec<String> = Vec::new();
        let mut i: usize = 1;
        while i < self.split_cmd.len()
            invariant
                "{bin}"@.len() > 0,
                1 <= i <= self.split_cmd@.len(),
                expected == self@.drop_first().map_values(|w: Seq<char>| replace_bin(w, bin_path@)),
                string_views(args@) == expected.take(i - 1),
            decreases self.split_cmd@.len() - i,
        {
            let a = replace(self.split_cmd[i].as_str(), "{bin}", bin_path);
            let ghost prev = string_views(args@);
            args.push(a);
            assert(string_views(args@) =~= prev.push(a@));
            assert(expected.take(i as int) =~= expected.take(i - 1).push(expected[i - 1]));
            i = i + 1;
        }
        assert(expected.take(self@.len() - 1) =~= expected);
        Ok(ChildCommand { program, args })
    }
}

} // verus!

verus! {

/// Expanding `{args}` leaves words that do not mention `{args}` as they are.
proof fn lemma_expand_without_args(words: Seq<Seq<char>>, trailing: Seq<Seq<char>>)
    requires
        forall|i: int| 0 <= i < words.len() ==> !occurs_in(#[trigger] words[i], "{args}"@),
    ensures
        expand_args_words(words, trailing) == words,
    decreases words.len(),
{
    reveal_strlit("{args}");
    if words.len() > 0 {
        let w = words.last();
        assert(!occurs_in(words[words.len() - 1], "{args}"@));
        if w == "{args}"@ {
            assert(w.subrange(0, 0 + "{args}"@.len() as int) =~= "{args}"@);
        }
        lemma_replace_absent(w, "{args}"@, join_spaces(trailing));
        lemma_expand_without_args(words.drop_last(), trailing);
        assert(words.drop_last().push(words.last()) =~= words);
    }
}

/// With a command that mentions neither `{bin}` nor `{args}`, the tool is
/// the command's first word, and its arguments are the command's other
/// words, then the artifact's path, then the trailing arguments (those
/// that do not mention `{bin}` themselves): `cargo with gdb -- run` runs
/// `gdb {bin} {args}`.
pub proof fn law_default_placement(raw: Seq<char>, trailing: Seq<Seq<char>>, bin_path: Seq<char>)
    requires
        !occurs_in(raw, "{bin}"@),
        !occurs_in(raw, "{args}"@),
        split_ws(raw).len() > 0,
        forall|i: int| 0 <= i < trailing.len() ==> !occurs_in(#[trigger] trailing[i], "{bin}"@),
    ensures
        ({
            let cmd = expand_args_words(with_placeholders(raw), trailing);
            &&& cmd.len() > 0
            &&& replace_bin(cmd[0], bin_path) == split_ws(raw)[0]
            &&& cmd.drop_first().map_values(|w: Seq<char>| replace_bin(w, bin_path)) == split_ws(
                raw,
            ).drop_first() + seq![bin_path] + trailing
        }),
{
    reveal_strlit("{bin}");
    reveal_strlit("{args}");
    let words = split_ws(raw);
    lemma_split_ws_pieces(raw);
    assert forall|i: int| 0 <= i < words.len() implies !occurs_in(#[trigger] words[i], "{bin}"@)
        && !occurs_in(words[i], "{args}"@) by {
        let (a, b) = choose|a: int, b: int| 0 <= a <= b <= raw.len() && #[trigger] split_ws(raw)[i] == raw.subrange(a, b);
        if occurs_in(words[i], "{bin}"@) {
            lemma_occurs_in_subrange(raw, a, b, "{bin}"@);
        }
        if occurs_in(words[i], "{args}"@) {
            lemma_occurs_in_subrange(raw, a, b, "{args}"@);
        }
    }
    let with_bin = words.push("{bin}"@);
    assert(with_placeholders(raw) == with_bin.push("{args}"@));
    assert("{bin}"@.len() != "{args}"@.len());
    assert forall|i: int| 0 <= i < with_bin.len() implies !occurs_in(#[trigger] with_bin[i], "{args}"@) by {
        if i < words.len() {
            assert(with_bin[i] == words[i]);
        }
    }
    lemma_expand_without_args(with_bin, trailing);
    assert(with_bin.push("{args}"@).drop_last() =~= with_bin);
    let cmd = expand_args_words(with_placeholders(raw), trailing);
    assert(cmd == with_bin + trailing);
    lemma_replace_absent(words[0], "{bin}"@, bin_path);
    lemma_replace_whole("{bin}"@, bin_path);
    let lhs = cmd.drop_first().map_values(|w: Seq<char>| replace_bin(w, bin_path));
    let rhs = words.drop_first() + seq![bin_path] + trailing;
    assert forall|k: int| 0 <= k < lhs.len() implies lhs[k] == rhs[k] by {
        if k < words.len() - 1 {
            assert(cmd[k + 1] == words[k + 1]);
            lemma_replace_absent(words[k + 1], "{bin}"@, bin_path);
        } else if k == words.len() - 1 {
            assert(cmd[k + 1] == "{bin}"@);
        } else {
            let j = k - words.len();
            assert(cmd[k + 1] == trailing[j]);
            lemma_replace_absent(trailing[j], "{bin}"@, bin_path);
        }
    }
    assert(lhs =~= rhs);
}

} // verus!

verus! {

/// A word other than `{args}` stands, with `{args}` replaced inside it,
/// in the expanded words.
proof fn lemma_expand_keeps(words: Seq<Seq<char>>, trailing: Seq<Seq<char>>, k: int)
    requires
        0 <= k < words.len(),
        words[k] != "{args}"@,
    ensures
        exists|m: int| 0 <= m < expand_args_words(words, trailing).len() && #[trigger] expand_args_words(words, trailing)[m]
            == replace_all(words[k], "{args}"@, join_spaces(trailing)),
    decreases words.len(),
{
    let rest = expand_args_words(words.drop_last(), trailing);
    let res = expand_args_words(words, trailing);
    if k == words.len() - 1 {
        assert(res[rest.len() as int] == replace_all(words[k], "{args}"@, join_spaces(trailing)));
    } else {
        lemma_expand_keeps(words.drop_last(), trailing, k);
        let m = choose|m: int| 0 <= m < rest.len() && #[trigger] rest[m] == replace_all(words.drop_last()[k], "{args}"@, join_spaces(trailing));
        assert(res[m] == rest[m]);
    }
}

/// Whatever the command line holds, the command that runs the artifact
/// has a program (so `child_command` never answers "No child command
/// given.") and some word of it mentions `{bin}`, so the artifact's path
/// always reaches the tool.
pub proof fn law_with_cmd_runs_artifact(raw: Seq<char>, trailing: Seq<Seq<char>>)
    ensures
        expand_args_words(with_placeholders(raw), trailing).len() > 0,
        exists|m: int| 0 <= m < expand_args_words(with_placeholders(raw), trailing).len()
            && occurs_in(#[trigger] expand_args_words(with_placeholders(raw), trailing)[m], "{bin}"@),
{
    reveal_strlit("{bin}");
    reveal_strlit("{args}");
    let words = split_ws(raw);
    let placed = with_placeholders(raw);
    let bin = "{bin}"@;
    let k: int = if occurs_in(raw, bin) {
        assert forall|j: int| 0 <= j < bin.len() implies !is_ws(#[trigger] bin[j]) by {}
        lemma_split_ws_keeps(raw, bin);
        let k = choose|k: int| 0 <= k < words.len() && occurs_in(#[trigger] words[k], bin);
        assert(placed[k] == words[k]);
        k
    } else {
        let k = words.len() as int;
        assert(placed[k] == bin);
        assert(bin.subrange(0, 0 + bin.len() as int) =~= bin);
        k
    };
    assert(occurs_in(placed[k], bin));
    if placed[k] == "{args}"@ {
        let i = choose|i: int| 0 <= i && i + bin.len() <= placed[k].len() && #[trigger] placed[k].subrange(i, i + bin.len()) == bin;
        assert(placed[k][i + 1] == placed[k].subrange(i, i + 5)[1]);
        assert(placed[k][i] == placed[k].subrange(i, i + 5)[0]);
    }
    lemma_expand_keeps(placed, trailing, k);
    lemma_replace_args_keeps_bin(placed[k], join_spaces(trailing));
}

} // verus!
