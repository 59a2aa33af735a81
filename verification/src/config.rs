//! The run configuration: which counts to display and which sources to
//! read, parsed from the command-line arguments.

use vstd::prelude::*;
use vstd::string::StrSliceExecFns;

verus! {

/// An argument-parsing failure: a flag letter that is not `l`, `w` or `c`.
#[derive(Clone, Copy, Debug, PartialEq, Eq)]
pub enum ArgError {
    UnknownFlag(char),
}

/// The views of a list of argument strings.
pub open spec fn arg_views(args: Seq<String>) -> Seq<Seq<char>> {
    args.map_values(|s: String| s@)
}

/// An argument is a flag group when it starts with `-` and has at least one
/// more character.
pub open spec fn is_flag_arg(a: Seq<char>) -> bool {
    a.len() > 1 && a[0] == '-'
}

/// The flag letters this tool understands.
pub open spec fn known_flag(c: char) -> bool {
    c == 'l' || c == 'w' || c == 'c'
}

/// The letter `c` occurs in the flag group `a` (after the leading dash).
pub open spec fn flag_in_arg(a: Seq<char>, c: char) -> bool {
    is_flag_arg(a) && exists|j: int| 1 <= j < a.len() && a[j] == c
}

/// Some argument is a flag group.
pub open spec fn any_flag_arg(args: Seq<Seq<char>>) -> bool {
    exists|i: int| 0 <= i < args.len() && is_flag_arg(args[i])
}

/// The letter `c` occurs in some flag group.
pub open spec fn has_flag(args: Seq<Seq<char>>, c: char) -> bool {
    exists|i: int| 0 <= i < args.len() && flag_in_arg(args[i], c)
}

/// A field is displayed when no flag was given at all (the default shows
/// every field) or when its letter occurs in some flag group.
pub open spec fn field_shown(explicit: bool, present: bool) -> bool {
    !explicit || present
}

/// The arguments that are not flag groups, in the order given: the input
/// files.
pub open spec fn file_args(args: Seq<Seq<char>>) -> Seq<Seq<char>>
    decreases args.len(),
{
    if args.len() == 0 {
        Seq::empty()
    } else if is_flag_arg(args.last()) {
        file_args(args.drop_last())
    } else {
        file_args(args.drop_last()).push(args.last())
    }
}

/// The first unknown letter of the flag group `a` at or after position `j`,
/// if any.
pub open spec fn flag_error_from(a: Seq<char>, j: int) -> Option<char>
    decreases a.len() - j,
{
    if j < 1 || j >= a.len() {
        None
    } else if !known_flag(a[j]) {
        Some(a[j])
    } else {
        flag_error_from(a, j + 1)
    }
}

/// The unknown letter the scan stops on, if any: arguments are read left to
/// right, and within the first offending flag group letters are read left
/// to right.
pub open spec fn args_error_from(args: Seq<Seq<char>>, i: int) -> Option<char>
    decreases args.len() - i,
{
    if i < 0 || i >= args.len() {
        None
    } else if is_flag_arg(args[i]) && flag_error_from(args[i], 1) is Some {
        flag_error_from(args[i], 1)
    } else {
        args_error_from(args, i + 1)
    }
}

/// The unknown flag letter the whole argument list fails on, if any.
pub open spec fn parse_error(args: Seq<Seq<char>>) -> Option<char> {
    args_error_from(args, 0)
}

proof fn lemma_flag_error_seek(a: Seq<char>, m: int, j: int)
    requires
        1 <= m <= j < a.len(),
        forall|t: int| m <= t < j ==> known_flag(a[t]),
        !known_flag(a[j]),
    ensures
        flag_error_from(a, m) == Some(a[j]),
    decreases j - m,
{
    if m < j {
        lemma_flag_error_seek(a, m + 1, j);
    }
}

proof fn lemma_flag_error_clean(a: Seq<char>, m: int)
    requires
        1 <= m,
        forall|t: int| m <= t < a.len() ==> known_flag(a[t]),
    ensures
        flag_error_from(a, m) is None,
    decreases a.len() - m,
{
    if m < a.len() {
        lemma_flag_error_clean(a, m + 1);
    }
}

proof fn lemma_args_error_seek(vs: Seq<Seq<char>>, k: int, i: int)
    requires
        0 <= k <= i < vs.len(),
        forall|t: int| k <= t < i ==> !(is_flag_arg(vs[t]) && flag_error_from(vs[t], 1) is Some),
        is_flag_arg(vs[i]),
        flag_error_from(vs[i], 1) is Some,
    ensures
        args_error_from(vs, k) == flag_error_from(vs[i], 1),
    decreases i - k,
{
    if k < i {
        lemma_args_error_seek(vs, k + 1, i);
    }
}

proof fn lemma_args_error_clean(vs: Seq<Seq<char>>, k: int)
    requires
        0 <= k,
        forall|t: int| k <= t < vs.len() ==> !(is_flag_arg(vs[t]) && flag_error_from(vs[t], 1)
            is Some),
    ensures
        args_error_from(vs, k) is None,
    decreases vs.len() - k,
{
    if k < vs.len() {
        lemma_args_error_clean(vs, k + 1);
    }
}

/// Extending a prefix of the argument list by one argument extends the
/// flag-presence predicates by exactly that argument's flags.
proof fn lemma_prefix_flag_ext(vs: Seq<Seq<char>>, i: int, c: char)
    requires
        0 <= i < vs.len(),
    ensures
        has_flag(vs.take(i + 1), c) == (has_flag(vs.take(i), c) || flag_in_arg(vs[i], c)),
        any_flag_arg(vs.take(i + 1)) == (any_flag_arg(vs.take(i)) || is_flag_arg(vs[i])),
{
    let p = vs.take(i + 1);
    let q = vs.take(i);
    assert(forall|k: int| 0 <= k < i + 1 ==> p[k] == vs[k]);
    assert(forall|k: int| 0 <= k < i ==> q[k] == vs[k]);
    if has_flag(p, c) {
        let k = choose|k: int| 0 <= k < p.len() && flag_in_arg(p[k], c);
        if k < i {
            assert(flag_in_arg(q[k], c));
        }
    }
    if has_flag(q, c) {
        let k = choose|k: int| 0 <= k < q.len() && flag_in_arg(q[k], c);
        assert(flag_in_arg(p[k], c));
    }
    if flag_in_arg(vs[i], c) {
        assert(flag_in_arg(p[i], c));
    }
    if any_flag_arg(p) {
        let k = choose|k: int| 0 <= k < p.len() && is_flag_arg(p[k]);
        if k < i {
            assert(is_flag_arg(q[k]));
        }
    }
    if any_flag_arg(q) {
        let k = choose|k: int| 0 <= k < q.len() && is_flag_arg(q[k]);
        assert(is_flag_arg(p[k]));
    }
    if is_flag_arg(vs[i]) {
        assert(is_flag_arg(p[i]));
    }
}

/// A prefix with no flag group has none of the flag letters either.
proof fn lemma_no_flag_args_no_flags(vs: Seq<Seq<char>>, c: char)
    requires
        !any_flag_arg(vs),
    ensures
        !has_flag(vs, c),
{
    if has_flag(vs, c) {
        let k = choose|k: int| 0 <= k < vs.len() && flag_in_arg(vs[k], c);
        assert(is_flag_arg(vs[k]));
    }
}

/// Which of the three counts are displayed, and the ordered list of input
/// files. Built once from the command-line arguments; read-only afterwards.
#[derive(Debug)]
pub struct Config {
    pub show_lines: bool,
    pub show_words: bool,
    pub show_chars: bool,
    pub files: Vec<String>,
}

impl Default for Config {
    /// The default display: all three counts, no files.
    fn default() -> (r: Self)
        ensures
            r.show_lines && r.show_words && r.show_chars,
            r.files@ == Seq::<String>::empty(),
    {
        Config { show_lines: true, show_words: true, show_chars: true, files: Vec::new() }
    }
}

impl Config {
    /// Parse the command-line arguments (the program name excluded).
    ///
    /// An argument starting with `-` and longer than one character is a
    /// flag group; the first flag group turns every display field off, and
    /// each known letter turns its field back on. Any other argument is an
    /// input file, kept in the order given. The first letter of a flag
    /// group that is not `l`, `w` or `c` fails the parse.
    pub fn from_args(args: &Vec<String>) -> (r: Result<Config, ArgError>)
        ensures
            r is Err <==> parse_error(arg_views(args@)) is Some,
            r matches Err(ArgError::UnknownFlag(c)) ==> parse_error(arg_views(args@)) == Some(c),
            r matches Ok(cfg) ==> {
                let vs = arg_views(args@);
                &&& cfg.show_lines == field_shown(any_flag_arg(vs), has_flag(vs, 'l'))
                &&& cfg.show_words == field_shown(any_flag_arg(vs), has_flag(vs, 'w'))
                &&& cfg.show_chars == field_shown(any_flag_arg(vs), has_flag(vs, 'c'))
                &&& arg_views(cfg.files@) == file_args(vs)
            },
    {
        let ghost vs: Seq<Seq<char>> = arg_views(args@);
        let mut show_lines: bool = true;
        let mut show_words: bool = true;
        let mut show_chars: bool = true;
        let mut explicit: bool = false;
        let mut files: Vec<String> = Vec::new();
        let n: usize = args.len();
        let mut i: usize = 0;
        while i < n
            invariant
                0 <= i <= n,
                n == args@.len(),
                vs == arg_views(args@),
                explicit == any_flag_arg(vs.take(i as int)),
                show_lines == field_shown(explicit, has_flag(vs.take(i as int), 'l')),
                show_words == field_shown(explicit, has_flag(vs.take(i as int), 'w')),
                show_chars == field_shown(explicit, has_flag(vs.take(i as int), 'c')),
                arg_views(files@) == file_args(vs.take(i as int)),
                forall|k: int| 0 <= k < i ==> !(is_flag_arg(vs[k]) && flag_error_from(vs[k], 1)
                    is Some),
            decreases n - i,
        {
            let s: &str = args[i].as_str();
            proof {
                assert(vs[i as int] == args@[i as int]@);
            }
            let ghost a: Seq<char> = vs[i as int];
            let clen: usize = s.unicode_len();
            let is_flag: bool = clen > 1 && s.get_char(0) == '-';
            if is_flag {
                if !explicit {
                    explicit = true;
                    show_lines = false;
                    show_words = false;
                    show_chars = false;
                    proof {
                        lemma_no_flag_args_no_flags(vs.take(i as int), 'l');
                        lemma_no_flag_args_no_flags(vs.take(i as int), 'w');
                        lemma_no_flag_args_no_flags(vs.take(i as int), 'c');
                    }
                }
                let mut j: usize = 1;
                while j < clen
                    invariant
                        1 <= j <= clen,
                        clen == a.len(),
                        s@ == a,
                        0 <= i < n,
                        n == args@.len(),
                        vs == arg_views(args@),
                        a == vs[i as int],
                        is_flag_arg(a),
                        explicit,
                        forall|m: int| 1 <= m < j ==> known_flag(a[m]),
                        show_lines == (has_flag(vs.take(i as int), 'l') || exists|m: int|
                            1 <= m < j && a[m] == 'l'),
                        show_words == (has_flag(vs.take(i as int), 'w') || exists|m: int|
                            1 <= m < j && a[m] == 'w'),
                        show_chars == (has_flag(vs.take(i as int), 'c') || exists|m: int|
                            1 <= m < j && a[m] == 'c'),
                        arg_views(files@) == file_args(vs.take(i as int)),
                        forall|k: int| 0 <= k < i ==> !(is_flag_arg(vs[k]) && flag_error_from(
                            vs[k],
                            1,
                        ) is Some),
                    decreases clen - j,
                {
                    let c: char = s.get_char(j);
                    if c == 'l' {
                        show_lines = true;
                        proof {
                            assert(a[j as int] == 'l');
                        }
                    } else if c == 'w' {
                        show_words = true;
                        proof {
                            assert(a[j as int] == 'w');
                        }
                    } else if c == 'c' {
                        show_chars = true;
                        proof {
                            assert(a[j as int] == 'c');
                        }
                    } else {
                        proof {
                            lemma_flag_error_seek(a, 1, j as int);
                            lemma_args_error_seek(vs, 0, i as int);
                        }
                        return Err(ArgError::UnknownFlag(c));
                    }
                    j = j + 1;
                }
                proof {
                    lemma_flag_error_clean(a, 1);
                    lemma_prefix_flag_ext(vs, i as int, 'l');
                    lemma_prefix_flag_ext(vs, i as int, 'w');
                    lemma_prefix_flag_ext(vs, i as int, 'c');
                    assert(vs.take(i + 1).drop_last() =~= vs.take(i as int));
                    assert(vs.take(i + 1).last() == a);
                }
            } else {
                files.push(args[i].clone());
                proof {
                    lemma_prefix_flag_ext(vs, i as int, 'l');
                    lemma_prefix_flag_ext(vs, i as int, 'w');
                    lemma_prefix_flag_ext(vs, i as int, 'c');
                    assert(vs.take(i + 1).drop_last() =~= vs.take(i as int));
                    assert(vs.take(i + 1).last() == a);
                    assert(!is_flag_arg(a));
                    assert(arg_views(files@) =~= file_args(vs.take(i as int)).push(a));
                }
            }
            i = i + 1;
        }
        proof {
            assert(vs.take(n as int) =~= vs);
            lemma_args_error_clean(vs, 0);
        }
        Ok(Config { show_lines, show_words, show_chars, files })
    }
}

} // verus!
