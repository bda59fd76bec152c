//! Command-line logic of the UF2 build helper: the `uf2` subcommand's options
//! and the name of the file it writes.

use vstd::prelude::*;
use vstd::string::*;

verus! {

/// The binary built when `--bin` is not given.
pub const DEFAULT_BIN: &'static str = "pico2";

/// Options of `cargo uf2`.
pub struct Uf2Options {
    /// `--features`/`-F`, passed on to cargo.
    pub features: Option<String>,
    /// Build before converting; cleared by `--no-build`.
    pub build: bool,
    /// The binary to build and convert.
    pub bin: String,
}

/// Why the `uf2` arguments were refused.
#[derive(Debug, PartialEq, Eq, Structural)]
pub enum ArgError {
    /// `--features` or `-F` was the last argument.
    MissingFeaturesValue,
    /// `--bin` was the last argument.
    MissingBinValue,
    /// The argument at this index is not an option of `uf2`.
    UnknownArgument(usize),
}

/// Options parsed so far: features, build, bin.
pub type ParsedSpec = (Option<Seq<char>>, bool, Seq<char>);

/// The options that the arguments from index `i` on give, starting from `acc`.
pub open spec fn parse_from(args: Seq<String>, i: int, acc: ParsedSpec) -> Result<ParsedSpec, ArgError>
    decreases args.len() - i,
{
    if i < 0 || i >= args.len() {
        Ok(acc)
    } else {
        let a = args[i]@;
        if a == "--features"@ || a == "-F"@ {
            if i + 1 >= args.len() {
                Err(ArgError::MissingFeaturesValue)
            } else {
                parse_from(args, i + 2, (Some(args[i + 1]@), acc.1, acc.2))
            }
        } else if a == "--bin"@ {
            if i + 1 >= args.len() {
                Err(ArgError::MissingBinValue)
            } else {
                parse_from(args, i + 2, (acc.0, acc.1, args[i + 1]@))
            }
        } else if a == "--no-build"@ {
            parse_from(args, i + 1, (acc.0, false, acc.2))
        } else {
            Err(ArgError::UnknownArgument(i as usize))
        }
    }
}

/// The options that `args` give: no features, build, bin `pico2` unless
/// overridden; a later repetition of an option wins.
pub open spec fn parse_uf2_args_spec(args: Seq<String>) -> Result<ParsedSpec, ArgError> {
    parse_from(args, 0, (None, true, DEFAULT_BIN@))
}

/// Parsing that reaches the end of `args` from `i` reaches, in `args`
/// followed by anything, the same options at that end.
proof fn lemma_parse_prefix(args: Seq<String>, t: Seq<String>, i: int, acc: ParsedSpec)
    requires
        0 <= i <= args.len(),
        parse_from(args, i, acc) is Ok,
    ensures
        parse_from(args + t, i, acc) == parse_from(args + t, args.len() as int, parse_from(args, i, acc)->Ok_0),
    decreases args.len() - i,
{
    let all = args + t;
    if i < args.len() {
        assert(all[i] == args[i]);
        let a = args[i]@;
        if a == "--features"@ || a == "-F"@ {
            assert(all[i + 1] == args[i + 1]);
            lemma_parse_prefix(args, t, i + 2, (Some(args[i + 1]@), acc.1, acc.2));
        } else if a == "--bin"@ {
            assert(all[i + 1] == args[i + 1]);
            lemma_parse_prefix(args, t, i + 2, (acc.0, acc.1, args[i + 1]@));
        } else if a == "--no-build"@ {
            lemma_parse_prefix(args, t, i + 1, (acc.0, false, acc.2));
        }
    }
}

/// Each option sets its own field and nothing else, and the last one given
/// wins: with no arguments the options are no features, build, bin `pico2`;
/// after arguments that parse, `--no-build` clears only the build, `--features
/// v` or `-F v` sets only the features to `v`, and `--bin v` sets only the
/// binary to `v`; an option that wants a value refuses to come last; and any
/// other word is refused at its own index.
pub proof fn lemma_options_set_only_their_own_field(args: Seq<String>, opt: String, val: String)
    requires
        parse_uf2_args_spec(args) is Ok,
    ensures
        parse_uf2_args_spec(seq![]) == Ok::<ParsedSpec, ArgError>((None, true, "pico2"@)),
        ({
            let p = parse_uf2_args_spec(args)->Ok_0;
            &&& opt@ == "--no-build"@ ==> parse_uf2_args_spec(args.push(opt)) == Ok::<ParsedSpec, ArgError>(
                (p.0, false, p.2),
            )
            &&& (opt@ == "--features"@ || opt@ == "-F"@) ==> parse_uf2_args_spec(args.push(opt).push(val))
                == Ok::<ParsedSpec, ArgError>((Some(val@), p.1, p.2))
            &&& opt@ == "--bin"@ ==> parse_uf2_args_spec(args.push(opt).push(val)) == Ok::<ParsedSpec, ArgError>(
                (p.0, p.1, val@),
            )
            &&& (opt@ == "--features"@ || opt@ == "-F"@) ==> parse_uf2_args_spec(args.push(opt))
                == Err::<ParsedSpec, ArgError>(ArgError::MissingFeaturesValue)
            &&& opt@ == "--bin"@ ==> parse_uf2_args_spec(args.push(opt)) == Err::<ParsedSpec, ArgError>(
                ArgError::MissingBinValue,
            )
            &&& (opt@ != "--features"@ && opt@ != "-F"@ && opt@ != "--bin"@ && opt@ != "--no-build"@)
                ==> parse_uf2_args_spec(args.push(opt)) == Err::<ParsedSpec, ArgError>(
                ArgError::UnknownArgument(args.len() as usize),
            )
        }),
{
    reveal_strlit("pico2");
    reveal_strlit("--features");
    reveal_strlit("-F");
    reveal_strlit("--bin");
    reveal_strlit("--no-build");
    assert("--features"@[2] != "--no-build"@[2]);
    assert("--features"@.len() == 10 && "-F"@.len() == 2 && "--bin"@.len() == 5 && "--no-build"@.len() == 10);
    let init: ParsedSpec = (None, true, DEFAULT_BIN@);
    let p = parse_from(args, 0, init)->Ok_0;
    let one = seq![opt];
    let two = seq![opt, val];
    lemma_parse_prefix(args, one, 0, init);
    lemma_parse_prefix(args, two, 0, init);
    assert(args.push(opt) =~= args + one);
    assert(args.push(opt).push(val) =~= args + two);
    let a1 = args + one;
    let a2 = args + two;
    assert(a1[args.len() as int] == opt);
    assert(a2[args.len() as int] == opt);
    assert(a2[args.len() as int + 1] == val);
    let n = args.len() as int;
    assert(parse_uf2_args_spec(args.push(opt)) == parse_from(a1, n, p));
    assert(parse_uf2_args_spec(args.push(opt).push(val)) == parse_from(a2, n, p));
    if opt@ == "--features"@ || opt@ == "-F"@ {
        assert(parse_from(a2, n + 2, (Some(val@), p.1, p.2)) == Ok::<ParsedSpec, ArgError>((Some(val@), p.1, p.2)));
        assert(parse_from(a1, n, p) == Err::<ParsedSpec, ArgError>(ArgError::MissingFeaturesValue));
    } else if opt@ == "--bin"@ {
        assert(parse_from(a2, n + 2, (p.0, p.1, val@)) == Ok::<ParsedSpec, ArgError>((p.0, p.1, val@)));
        assert(a2[n]@ != "--features"@ && a2[n]@ != "-F"@);
        assert(parse_from(a2, n, p) == Ok::<ParsedSpec, ArgError>((p.0, p.1, val@)));
        assert(parse_from(a1, n, p) == Err::<ParsedSpec, ArgError>(ArgError::MissingBinValue));
    } else if opt@ == "--no-build"@ {
        assert(parse_from(a1, n + 1, (p.0, false, p.2)) == Ok::<ParsedSpec, ArgError>((p.0, false, p.2)));
        assert(a1[n]@ != "--features"@ && a1[n]@ != "-F"@ && a1[n]@ != "--bin"@);
        assert(parse_from(a1, n, p) == Ok::<ParsedSpec, ArgError>((p.0, false, p.2)));
    } else {
        assert(parse_from(a1, n, p) == Err::<ParsedSpec, ArgError>(ArgError::UnknownArgument(n as usize)));
    }
}

/// `a` holds exactly the characters of `lit`.
fn is_arg(a: &String, lit: &str) -> (r: bool)
    ensures
        r == (a@ == lit@),
{
    let l = lit.to_owned();
    *a == l
}

/// Parses the arguments of `cargo uf2`.
pub fn parse_uf2_args(args: &[String]) -> (r: Result<Uf2Options, ArgError>)
    ensures
        match parse_uf2_args_spec(args@) {
            Ok(p) => r is Ok && (match r->Ok_0.features {
                Some(f) => p.0 == Some(f@),
                None => p.0 is None,
            }) && r->Ok_0.build == p.1 && r->Ok_0.bin@ == p.2,
            Err(e) => r is Err && r->Err_0 == e,
        },
{
    let mut features: Option<String> = None;
    let mut build = true;
    let mut bin = DEFAULT_BIN.to_owned();
    let mut i: usize = 0;
    while i < args.len()
        invariant
            i <= args@.len(),
            parse_uf2_args_spec(args@) == parse_from(
                args@,
                i as int,
                (
                    match features {
                        Some(f) => Some(f@),
                        None => None,
                    },
                    build,
                    bin@,
                ),
            ),
        decreases args@.len() - i,
    {
        let a = &args[i];
        if is_arg(a, "--features") || is_arg(a, "-F") {
            if i + 1 >= args.len() {
                return Err(ArgError::MissingFeaturesValue);
            }
            features = Some(args[i + 1].clone());
            i = i + 2;
        } else if is_arg(a, "--bin") {
            if i + 1 >= args.len() {
                return Err(ArgError::MissingBinValue);
            }
            bin = args[i + 1].clone();
            i = i + 2;
        } else if is_arg(a, "--no-build") {
            build = false;
            i = i + 1;
        } else {
            return Err(ArgError::UnknownArgument(i));
        }
    }
    Ok(Uf2Options { features, build, bin })
}

/// Whether `c` is white space as `char::is_whitespace` defines it (the
/// Unicode `White_Space` property).
pub open spec fn is_white_space(c: char) -> bool {
    let u = c as u32;
    ||| 0x09 <= u <= 0x0D
    ||| u == 0x20
    ||| u == 0x85
    ||| u == 0xA0
    ||| u == 0x1680
    ||| 0x2000 <= u <= 0x200A
    ||| u == 0x2028
    ||| u == 0x2029
    ||| u == 0x202F
    ||| u == 0x205F
    ||| u == 0x3000
}

/// `s` split at every comma; `n` commas give `n + 1` pieces.
pub open spec fn split_commas(s: Seq<char>) -> Seq<Seq<char>>
    decreases s.len(),
{
    if s.len() == 0 {
        seq![seq![]]
    } else {
        let before = split_commas(s.drop_last());
        if s.last() == ',' {
            before.push(seq![])
        } else {
            before.update(before.len() - 1, before.last().push(s.last()))
        }
    }
}

/// `w` without leading white space.
pub open spec fn trim_start(w: Seq<char>) -> Seq<char>
    decreases w.len(),
{
    if w.len() > 0 && is_white_space(w[0]) { trim_start(w.drop_first()) } else { w }
}

/// `w` without trailing white space.
pub open spec fn trim_end(w: Seq<char>) -> Seq<char>
    decreases w.len(),
{
    if w.len() > 0 && is_white_space(w.last()) { trim_end(w.drop_last()) } else { w }
}

/// `w` without white space at either end.
pub open spec fn trim(w: Seq<char>) -> Seq<char> {
    trim_end(trim_start(w))
}

/// The comma-separated feature list `list` names `name`, ignoring white space
/// around each entry.
pub open spec fn names_feature(list: Seq<char>, name: Seq<char>) -> bool {
    exists|i: int| 0 <= i < split_commas(list).len() && trim(#[trigger] split_commas(list)[i]) == name
}

/// The characters of `s`.
fn chars_of(s: &str) -> (v: Vec<char>)
    ensures
        v@ == s@,
{
    let n = s.unicode_len();
    let mut v: Vec<char> = Vec::new();
    let mut i: usize = 0;
    while i < n
        invariant
            i <= n,
            n == s@.len(),
            v@ == s@.take(i as int),
        decreases n - i,
    {
        v.push(s.get_char(i));
        proof {
            assert(s@.take(i + 1) =~= s@.take(i as int).push(s@[i as int]));
        }
        i = i + 1;
    }
    proof {
        assert(s@.take(n as int) =~= s@);
    }
    v
}

/// Whether `c` is white space.
fn white_space(c: char) -> (r: bool)
    ensures
        r == is_white_space(c),
{
    let u = c as u32;
    (0x09 <= u && u <= 0x0D) || u == 0x20 || u == 0x85 || u == 0xA0 || u == 0x1680 || (0x2000 <= u
        && u <= 0x200A) || u == 0x2028 || u == 0x2029 || u == 0x202F || u == 0x205F || u == 0x3000
}

/// `trim_start` of `w[lo..hi]` is `w[lo2..hi]` where `lo2` is the first
/// non-white index.
proof fn lemma_trim_start_skip(w: Seq<char>, lo: int, hi: int)
    requires
        0 <= lo < hi <= w.len(),
        is_white_space(w[lo]),
    ensures
        trim_start(w.subrange(lo, hi)) == trim_start(w.subrange(lo + 1, hi)),
{
    assert(w.subrange(lo, hi).drop_first() =~= w.subrange(lo + 1, hi));
}

/// Dropping a trailing white-space character does not change `trim_end`.
proof fn lemma_trim_end_skip(w: Seq<char>, lo: int, hi: int)
    requires
        0 <= lo < hi <= w.len(),
        is_white_space(w[hi - 1]),
    ensures
        trim_end(w.subrange(lo, hi)) == trim_end(w.subrange(lo, hi - 1)),
{
    assert(w.subrange(lo, hi).drop_last() =~= w.subrange(lo, hi - 1));
}

/// Whether `w[lo..hi]`, trimmed, equals `name`.
fn trimmed_equals(w: &Vec<char>, lo: usize, hi: usize, name: &Vec<char>) -> (r: bool)
    requires
        lo <= hi <= w@.len(),
    ensures
        r == (trim(w@.subrange(lo as int, hi as int)) == name@),
{
    let mut a = lo;
    while a < hi && white_space(w[a])
        invariant
            lo <= a <= hi,
            hi <= w@.len(),
            trim_start(w@.subrange(lo as int, hi as int)) == trim_start(w@.subrange(a as int, hi as int)),
        decreases hi - a,
    {
        proof {
            lemma_trim_start_skip(w@, a as int, hi as int);
        }
        a = a + 1;
    }
    assert(trim_start(w@.subrange(a as int, hi as int)) == w@.subrange(a as int, hi as int));
    let mut b = hi;
    while b > a && white_space(w[b - 1])
        invariant
            a <= b <= hi,
            hi <= w@.len(),
            trim_end(w@.subrange(a as int, hi as int)) == trim_end(w@.subrange(a as int, b as int)),
        decreases b - a,
    {
        proof {
            lemma_trim_end_skip(w@, a as int, b as int);
        }
        b = b - 1;
    }
    assert(trim_end(w@.subrange(a as int, b as int)) == w@.subrange(a as int, b as int));
    let ghost t = w@.subrange(a as int, b as int);
    assert(trim(w@.subrange(lo as int, hi as int)) == t);
    if b - a != name.len() {
        assert(t.len() != name@.len());
        return false;
    }
    let mut k: usize = 0;
    while k < name.len()
        invariant
            k <= name@.len(),
            name@.len() == b - a,
            a <= b <= w@.len(),
            t == w@.subrange(a as int, b as int),
            lo <= hi <= w@.len(),
            trim(w@.subrange(lo as int, hi as int)) == t,
            forall|j: int| 0 <= j < k ==> t[j] == name@[j],
        decreases name@.len() - k,
    {
        if w[a + k] != name[k] {
            assert(t[k as int] != name@[k as int]);
            return false;
        }
        k = k + 1;
    }
    assert(t =~= name@);
    true
}

/// Whether the comma-separated feature list names `name`.
pub fn has_feature(list: &str, name: &str) -> (r: bool)
    ensures
        r == names_feature(list@, name@),
{
    let w = chars_of(list);
    let nm = chars_of(name);
    let mut start: usize = 0;
    let mut i: usize = 0;
    while i < w.len()
        invariant
            start <= i <= w@.len(),
            w@ == list@,
            nm@ == name@,
            split_commas(w@.take(i as int)).len() >= 1,
            split_commas(w@.take(i as int)).last() == w@.subrange(start as int, i as int),
            forall|j: int| 0 <= j < split_commas(w@.take(i as int)).len() - 1
                ==> trim(#[trigger] split_commas(w@.take(i as int))[j]) != nm@,
        decreases w@.len() - i,
    {
        proof {
            lemma_split_prefix(w@, i as int);
        }
        if w[i] == ',' {
            if trimmed_equals(&w, start, i, &nm) {
                proof {
                    lemma_split_prefix_keeps(w@, (i + 1) as int, w@.len() as int);
                    let prev = split_commas(w@.take(i as int));
                    let pieces = split_commas(w@.take(i + 1));
                    assert(pieces == prev.push(seq![]));
                    assert(pieces[pieces.len() - 2] == w@.subrange(start as int, i as int));
                    assert(w@.take(w@.len() as int) =~= w@);
                    assert(w@ == list@);
                    assert(split_commas(w@.take(w@.len() as int)) == split_commas(list@));
                    let k = pieces.len() - 2;
                    assert(split_commas(w@.take(w@.len() as int))[k] == pieces[k]);
                    assert(trim(split_commas(list@)[k]) == nm@);
                }
                return true;
            }
            start = i + 1;
        }
        i = i + 1;
    }
    proof {
        assert(w@.take(i as int) =~= w@);
    }
    let last = trimmed_equals(&w, start, i, &nm);
    last
}

/// How `split_commas` grows by one character.
proof fn lemma_split_prefix(w: Seq<char>, i: int)
    requires
        0 <= i < w.len(),
    ensures
        w.take(i + 1).drop_last() == w.take(i),
        w.take(i + 1).last() == w[i],
{
    assert(w.take(i + 1).drop_last() =~= w.take(i));
}

/// Pieces of a prefix other than its last one are pieces of any longer prefix.
proof fn lemma_split_prefix_keeps(w: Seq<char>, i: int, m: int)
    requires
        0 <= i <= m <= w.len(),
    ensures
        split_commas(w.take(m)).len() >= split_commas(w.take(i)).len(),
        forall|j: int| 0 <= j < split_commas(w.take(i)).len() - 1 ==> #[trigger] split_commas(w.take(m))[j]
            == split_commas(w.take(i))[j],
    decreases m - i,
{
    if i < m {
        lemma_split_prefix_keeps(w, i, m - 1);
        lemma_split_prefix(w, m - 1);
        lemma_split_len(w.take(m - 1));
    }
}

/// `split_commas` never yields an empty list.
proof fn lemma_split_len(s: Seq<char>)
    ensures
        split_commas(s).len() >= 1,
    decreases s.len(),
{
    if s.len() > 0 {
        lemma_split_len(s.drop_last());
    }
}

/// The name of the UF2 file for `bin`: `-usb` is added when the features name
/// `usb`, so the two variants of a build do not overwrite each other.
pub fn output_variant(features: &Option<String>) -> (r: &'static str)
    ensures
        r@ == (match features {
            Some(f) => if names_feature(f@, "usb"@) { "-usb"@ } else { ""@ },
            None => ""@,
        }),
{
    match features {
        Some(f) => if has_feature(f.as_str(), "usb") { "-usb" } else { "" },
        None => "",
    }
}

/// `pieces` joined with a comma between each two.
pub open spec fn join_commas(pieces: Seq<Seq<char>>) -> Seq<char>
    decreases pieces.len(),
{
    if pieces.len() <= 1 {
        if pieces.len() == 0 { seq![] } else { pieces[0] }
    } else {
        join_commas(pieces.drop_last()) + seq![','] + pieces.last()
    }
}

/// Splitting a feature list at its commas loses and adds nothing: no piece
/// holds a comma, and joining the pieces with commas gives the list back.
pub proof fn lemma_split_commas_rejoins(s: Seq<char>)
    ensures
        split_commas(s).len() >= 1,
        forall|i: int| 0 <= i < split_commas(s).len() ==> !(#[trigger] split_commas(s)[i]).contains(','),
        join_commas(split_commas(s)) == s,
    decreases s.len(),
{
    if s.len() > 0 {
        let prev = s.drop_last();
        lemma_split_commas_rejoins(prev);
        let before = split_commas(prev);
        let after = split_commas(s);
        if s.last() == ',' {
            assert(after == before.push(seq![]));
            assert(after.drop_last() =~= before);
            assert forall|i: int| 0 <= i < after.len() implies !(#[trigger] after[i]).contains(',') by {
                if i < before.len() {
                    assert(after[i] == before[i]);
                } else {
                    assert(after[i] =~= Seq::<char>::empty());
                }
            }
            if before.len() == 1 {
                assert(join_commas(after) == join_commas(after.drop_last()) + seq![','] + after.last());
            }
            assert(join_commas(after) =~= prev + seq![',']);
            assert(prev + seq![','] =~= s);
        } else {
            let last = before.last().push(s.last());
            assert(after == before.update(before.len() - 1, last));
            assert forall|i: int| 0 <= i < after.len() implies !(#[trigger] after[i]).contains(',') by {
                if i < before.len() - 1 {
                    assert(after[i] == before[i]);
                } else {
                    assert(!before[i].contains(','));
                    if last.contains(',') {
                        let k = choose|k: int| 0 <= k < last.len() && last[k] == ',';
                        if k < before[i].len() {
                            assert(before[i][k] == ',');
                        }
                    }
                }
            }
            if before.len() == 1 {
                assert(join_commas(before) == before[0]);
                assert(join_commas(after) == after[0]);
                assert(s =~= prev.push(s.last()));
            } else {
                assert(after.drop_last() =~= before.drop_last());
                assert(join_commas(after) == join_commas(before.drop_last()) + seq![','] + last);
                assert(join_commas(before) == join_commas(before.drop_last()) + seq![','] + before.last());
                assert(join_commas(after) =~= join_commas(before).push(s.last()));
                assert(s =~= prev.push(s.last()));
            }
        }
    } else {
        assert(split_commas(s) =~= seq![Seq::<char>::empty()]);
    }
}

} // verus!
