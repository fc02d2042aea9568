//! The command line.

use vstd::prelude::*;
use vstd::string::*;

use crate::container::{law_label_round_trips, law_parse_accepts_labels_only, Container};
use crate::text::{begins_with, joined, same_text, strip_prefix};

verus! {

/// How the program is called.
pub const USAGE: &'static str = "usage: diskprobe <path> [--container=qcow2|vhd|vhdx|vmdk]";

/// What the arguments ask for.
pub enum Args {
    /// To be told how the program is called.
    Help,
    /// Nothing that can be done, for this reason.
    Invalid(String),
    /// To probe the image at `path`, in `container` where one was named.
    Probe { path: String, container: Option<Container> },
}

/// [`Args`] with their text as characters.
pub enum ArgsView {
    Help,
    Invalid(Seq<char>),
    Probe { path: Seq<char>, container: Option<Container> },
}

impl View for Args {
    type V = ArgsView;

    open spec fn view(&self) -> ArgsView {
        match self {
            Args::Help => ArgsView::Help,
            Args::Invalid(reason) => ArgsView::Invalid(reason@),
            Args::Probe { path, container } => ArgsView::Probe {
                path: path@,
                container: *container,
            },
        }
    }
}

/// The arguments as characters.
pub open spec fn texts(args: Seq<String>) -> Seq<Seq<char>> {
    args.map_values(|arg: String| arg@)
}

/// Whether an argument asks for help.
pub open spec fn asks_for_help(arg: Seq<char>) -> bool {
    arg == "-h"@ || arg == "--help"@
}

/// What the arguments that are left ask for, where `path` and `container` were
/// found before them.
pub open spec fn scan(
    args: Seq<Seq<char>>,
    path: Option<Seq<char>>,
    container: Option<Container>,
) -> ArgsView
    decreases args.len(),
{
    if args.len() == 0 {
        match path {
            Some(path) => ArgsView::Probe { path, container },
            None => ArgsView::Invalid(USAGE@),
        }
    } else {
        let arg = args[0];
        let rest = args.drop_first();
        if begins_with(arg, "--container="@) {
            let name = arg.skip("--container="@.len() as int);
            match Container::named(name) {
                Some(kind) => scan(rest, path, Some(kind)),
                None => ArgsView::Invalid("unknown container kind: "@ + name),
            }
        } else if begins_with(arg, "--"@) {
            ArgsView::Invalid("unknown flag: "@ + arg + "\n"@ + USAGE@)
        } else if path is None {
            scan(rest, Some(arg), container)
        } else {
            ArgsView::Invalid("unexpected positional: "@ + arg)
        }
    }
}

/// What these arguments ask for. A request for help counts wherever it stands,
/// and no argument at all is one.
pub open spec fn asked(args: Seq<Seq<char>>) -> ArgsView {
    if args.len() == 0 || exists|i: int| 0 <= i < args.len() && asks_for_help(#[trigger] args[i]) {
        ArgsView::Help
    } else {
        scan(args, None, None)
    }
}

fn wants_help(args: &Vec<String>) -> (help: bool)
    ensures
        help == (args@.len() == 0 || exists|i: int|
            0 <= i < args@.len() && asks_for_help(#[trigger] texts(args@)[i])),
{
    if args.len() == 0 {
        return true;
    }
    let mut i: usize = 0;
    while i < args.len()
        invariant
            i <= args@.len(),
            forall|j: int| 0 <= j < i ==> !asks_for_help(#[trigger] texts(args@)[j]),
        decreases args@.len() - i,
    {
        if same_text(args[i].as_str(), "-h") || same_text(args[i].as_str(), "--help") {
            assert(asks_for_help(texts(args@)[i as int]));
            return true;
        }
        i = i + 1;
    }
    false
}

/// Reads the arguments that follow the program's name.
pub fn parse_args(args: &Vec<String>) -> (request: Args)
    ensures
        request@ == asked(texts(args@)),
{
    if wants_help(args) {
        return Args::Help;
    }
    let mut path: Option<String> = None;
    let mut container: Option<Container> = None;
    let mut i: usize = 0;
    let ghost all = texts(args@);
    assert(all.skip(0) =~= all);
    while i < args.len()
        invariant
            i <= args@.len(),
            all == texts(args@),
            asked(all) == scan(
                all.skip(i as int),
                match path {
                    Some(path) => Some(path@),
                    None => None,
                },
                container,
            ),
        decreases args@.len() - i,
    {
        let arg: &str = args[i].as_str();
        assert(all.skip(i as int)[0] == arg@);
        assert(all.skip(i as int).drop_first() =~= all.skip(i + 1));
        if let Some(name) = strip_prefix(arg, "--container=") {
            match Container::parse(name) {
                Some(kind) => {
                    container = Some(kind);
                },
                None => {
                    return Args::Invalid(joined("unknown container kind: ", name));
                },
            }
        } else if strip_prefix(arg, "--").is_some() {
            let mut reason: String = joined("unknown flag: ", arg);
            reason.append("\n");
            reason.append(USAGE);
            return Args::Invalid(reason);
        } else if path.is_none() {
            path = Some(arg.to_string());
        } else {
            return Args::Invalid(joined("unexpected positional: ", arg));
        }
        i = i + 1;
    }
    match path {
        Some(path) => Args::Probe { path, container },
        None => Args::Invalid(USAGE.to_string()),
    }
}

/// The option may stand before the path or behind it.
pub proof fn law_option_stands_on_either_side(path: Seq<char>, option: Seq<char>)
    requires
        !begins_with(path, "--"@),
        begins_with(option, "--container="@),
    ensures
        asked(seq![path, option]) == asked(seq![option, path]),
{
    let a = seq![path, option];
    let b = seq![option, path];
    reveal_with_fuel(scan, 3);
    assert(a.drop_first() =~= seq![option]);
    assert(b.drop_first() =~= seq![path]);
    assert(seq![option].drop_first() =~= Seq::empty());
    assert(seq![path].drop_first() =~= Seq::empty());
    assert(!begins_with(path, "--container="@)) by {
        reveal_strlit("--container=");
        reveal_strlit("--");
        if begins_with(path, "--container="@) {
            assert(path.take(12).take(2) =~= path.take(2));
            assert("--container="@.take(2) =~= "--"@);
        }
    }
    let name = option.skip("--container="@.len() as int);
    let kind = Container::named(name);
    assert(scan(a, None, None) == scan(seq![option], Some(path), None));
    assert(scan(b, None, None) == match kind {
        Some(kind) => scan(seq![path], None, Some(kind)),
        None => ArgsView::Invalid("unknown container kind: "@ + name),
    });
    let help = exists|i: int| 0 <= i < a.len() && asks_for_help(#[trigger] a[i]);
    let help_too = exists|i: int| 0 <= i < b.len() && asks_for_help(#[trigger] b[i]);
    assert(help == help_too) by {
        assert(a[0] == b[1] && a[1] == b[0]);
        if help {
            let i = choose|i: int| 0 <= i < a.len() && asks_for_help(#[trigger] a[i]);
            assert(asks_for_help(b[1 - i]));
        }
        if help_too {
            let i = choose|i: int| 0 <= i < b.len() && asks_for_help(#[trigger] b[i]);
            assert(asks_for_help(a[1 - i]));
        }
    }
}

/// What is probed is one of the arguments, and none that looks like an option.
pub proof fn law_path_is_an_argument(args: Seq<Seq<char>>)
    ensures
        asked(args) matches ArgsView::Probe { path, .. } ==> args.contains(path) && !begins_with(
            path,
            "--"@,
        ),
{
    if asked(args) is Probe {
        assert(args.skip(0) =~= args);
        lemma_scanned_path(args, args, 0, None, None);
    }
}

proof fn lemma_scanned_path(
    all: Seq<Seq<char>>,
    args: Seq<Seq<char>>,
    at: int,
    path: Option<Seq<char>>,
    container: Option<Container>,
)
    requires
        0 <= at <= all.len(),
        args == all.skip(at),
        path matches Some(p) ==> all.contains(p) && !begins_with(p, "--"@),
    ensures
        scan(args, path, container) matches ArgsView::Probe { path: p, .. } ==> all.contains(p)
            && !begins_with(p, "--"@),
    decreases args.len(),
{
    if args.len() > 0 {
        let arg = args[0];
        assert(arg == all[at]);
        assert(args.drop_first() =~= all.skip(at + 1));
        if begins_with(arg, "--container="@) {
            let name = arg.skip("--container="@.len() as int);
            if let Some(kind) = Container::named(name) {
                lemma_scanned_path(all, args.drop_first(), at + 1, path, Some(kind));
            }
        } else if !begins_with(arg, "--"@) && path is None {
            lemma_scanned_path(all, args.drop_first(), at + 1, Some(arg), container);
        }
    }
}

/// Whether an argument looks like an option.
pub open spec fn dashed(arg: Seq<char>) -> bool {
    arg.len() >= 2 && arg[0] == '-' && arg[1] == '-'
}

/// Whether an argument names a container.
pub open spec fn names(arg: Seq<char>, kind: Container) -> bool {
    arg == "--container="@ + kind.name()
}

/// Whether an argument names any container.
pub open spec fn is_choice(arg: Seq<char>) -> bool {
    exists|kind: Container| names(arg, kind)
}

/// Whether arguments ask to probe `path`: it is the one that does not look like
/// an option, and asks for no help, and all others name a container. The
/// container named last is the one asked for, and none where none is named.
pub open spec fn asks_to_probe(
    args: Seq<String>,
    path: Seq<char>,
    container: Option<Container>,
) -> bool {
    exists|k: int| #[trigger] asks_at(args, k, path, container)
}

/// The same, with the path at place `k`.
pub open spec fn asks_at(
    args: Seq<String>,
    k: int,
    path: Seq<char>,
    container: Option<Container>,
) -> bool {
    path != "-h"@ && is_only_path(args, k, path, container)
}

/// Whether the argument at `k` is `path`, all others name a container, and
/// `container` is named last.
pub open spec fn is_only_path(
    args: Seq<String>,
    k: int,
    path: Seq<char>,
    container: Option<Container>,
) -> bool {
    &&& 0 <= k < args.len()
    &&& args[k]@ == path
    &&& !dashed(path)
    &&& forall|i: int| 0 <= i < args.len() && i != k ==> is_choice((#[trigger] args[i])@)
    &&& match container {
        None => args.len() == 1,
        Some(kind) => exists|j: int| #[trigger] chosen_last(args, k, j, kind),
    }
}

/// Whether the argument at `j` names `kind` and nothing but the path, at `k`,
/// follows it.
pub open spec fn chosen_last(args: Seq<String>, k: int, j: int, kind: Container) -> bool {
    &&& 0 <= j < args.len()
    &&& names(args[j]@, kind)
    &&& j == args.len() - 1 || (j == args.len() - 2 && k == args.len() - 1)
}

/// Whether nothing is wrong with the first `i` arguments: each one names a
/// container or is the only path so far.
pub open spec fn fine_before(args: Seq<String>, i: int) -> bool {
    forall|j: int|
        0 <= j < i ==> is_choice((#[trigger] args[j])@) || (!dashed(args[j]@) && no_path_before(
            args,
            j,
        ))
}

/// Whether there is no path among the first `i` arguments.
pub open spec fn no_path_before(args: Seq<String>, i: int) -> bool {
    forall|j: int| 0 <= j < i ==> dashed((#[trigger] args[j])@)
}

/// Whether `reason` is what is wrong with the argument at `i`, the first with
/// which anything is.
pub open spec fn complains_at(args: Seq<String>, i: int, reason: Seq<char>) -> bool {
    let arg = args[i]@;
    &&& 0 <= i < args.len()
    &&& fine_before(args, i)
    &&& {
        ||| exists|name: Seq<char>|
            arg == #[trigger] ("--container="@ + name) && !is_choice(arg) && reason
                == "unknown container kind: "@ + name
        ||| dashed(arg) && (forall|name: Seq<char>| arg != #[trigger] ("--container="@ + name))
            && reason == "unknown flag: "@ + arg + "\n"@ + USAGE@
        ||| !dashed(arg) && !no_path_before(args, i) && reason == "unexpected positional: "@ + arg
    }
}

proof fn lemma_dashes(arg: Seq<char>)
    ensures
        begins_with(arg, "--"@) <==> dashed(arg),
        begins_with(arg, "--container="@) ==> dashed(arg),
        "--container="@.len() == 12,
        dashed("--help"@),
        !dashed("-h"@),
        !begins_with("--help"@, "--container="@),
{
    reveal_strlit("--");
    reveal_strlit("--container=");
    reveal_strlit("--help");
    reveal_strlit("-h");
    assert("--"@ =~= seq!['-', '-']);
    if begins_with(arg, "--"@) {
        assert(arg.take(2)[0] == '-' && arg.take(2)[1] == '-');
    }
    if dashed(arg) {
        assert(arg.take(2) =~= "--"@);
    }
    if begins_with(arg, "--container="@) {
        assert(arg.take(12)[0] == '-' && arg.take(12)[1] == '-');
    }
}

proof fn lemma_choice(arg: Seq<char>, kind: Container)
    ensures
        names(arg, kind) ==> begins_with(arg, "--container="@) && Container::named(
            arg.skip("--container="@.len() as int),
        ) == Some(kind),
        begins_with(arg, "--container="@) && Container::named(
            arg.skip("--container="@.len() as int),
        ) == Some(kind) ==> names(arg, kind),
{
    let option = "--container="@;
    if names(arg, kind) {
        assert(arg.take(option.len() as int) =~= option);
        assert(arg.skip(option.len() as int) =~= kind.name());
        law_label_round_trips(kind);
    }
    if begins_with(arg, option) {
        law_parse_accepts_labels_only(arg.skip(option.len() as int));
        assert(arg =~= option + arg.skip(option.len() as int));
    }
}

proof fn lemma_asked_scan(
    args: Seq<String>,
    i: int,
    k: int,
    path: Seq<char>,
    container: Option<Container>,
    result: Option<Container>,
)
    requires
        0 <= i <= args.len(),
        0 <= k < args.len(),
        args[k]@ == path,
        !dashed(path),
        forall|j: int| 0 <= j < args.len() && j != k ==> is_choice((#[trigger] args[j])@),
        ((i == args.len() || (i == args.len() - 1 && i == k)) && container == result) || (
        result matches Some(kind) && exists|j: int|
            i <= j && #[trigger] chosen_last(args, k, j, kind)),
    ensures
        scan(
            texts(args).skip(i),
            if k < i {
                Some(path)
            } else {
                None
            },
            container,
        ) == (ArgsView::Probe { path, container: result }),
    decreases args.len() - i,
{
    let rest = texts(args).skip(i);
    if i < args.len() {
        let arg = args[i]@;
        assert(rest[0] == arg);
        assert(rest.drop_first() =~= texts(args).skip(i + 1));
        lemma_dashes(arg);
        if i == k {
            if let Some(kind) = result {
                lemma_choice(arg, kind);
            }
            lemma_asked_scan(args, i + 1, k, path, container, result);
        } else {
            assert(is_choice(arg));
            let kind = choose|kind: Container| names(arg, kind);
            lemma_choice(arg, kind);
            let last = result->0;
            let j = choose|j: int| i <= j && #[trigger] chosen_last(args, k, j, last);
            if j == i {
                lemma_choice(arg, last);
            }
            lemma_asked_scan(args, i + 1, k, path, Some(kind), result);
        }
    }
}

/// Whether `reason` is what is wrong with the arguments: with the first one with
/// which anything is, or that there is no path.
pub open spec fn complains(args: Seq<String>, reason: Seq<char>) -> bool {
    ||| exists|at: int| #[trigger] complains_at(args, at, reason)
    ||| reason == USAGE@ && forall|j: int|
        0 <= j < args.len() ==> is_choice((#[trigger] args[j])@)
}

spec fn has_only_path(args: Seq<String>, path: Seq<char>, container: Option<Container>) -> bool {
    exists|at: int| #[trigger] is_only_path(args, at, path, container)
}

/// Whether a verdict on the arguments fits them, help aside.
spec fn tells(args: Seq<String>, verdict: ArgsView) -> bool {
    match verdict {
        ArgsView::Help => false,
        ArgsView::Probe { path, container } => has_only_path(args, path, container),
        ArgsView::Invalid(reason) => complains(args, reason),
    }
}

proof fn lemma_scan_asks(
    args: Seq<String>,
    i: int,
    k: int,
    before: Option<Container>,
)
    requires
        0 <= i <= args.len(),
        fine_before(args, i),
        0 <= k < i ==> !dashed(args[k]@) && forall|j: int|
            0 <= j < i && j != k ==> is_choice((#[trigger] args[j])@),
        !(0 <= k < i) ==> k == -1 && forall|j: int| 0 <= j < i ==> is_choice((#[trigger] args[j])@),
        match before {
            None => i == 0 || (i == 1 && k == 0),
            Some(kind) => exists|j: int|
                0 <= j < i && names((#[trigger] args[j])@, kind) && (j == i - 1 || (j == i - 2 && k
                    == i - 1)),
        },
    ensures
        tells(
            args,
            scan(
                texts(args).skip(i),
                if k >= 0 {
                    Some(args[k]@)
                } else {
                    None
                },
                before,
            ),
        ),
    decreases args.len() - i,
{
    let rest = texts(args).skip(i);
    if i < args.len() {
        let arg = args[i]@;
        assert(rest[0] == arg);
        assert(rest.drop_first() =~= texts(args).skip(i + 1));
        lemma_dashes(arg);
        let option = "--container="@;
        assert forall|j: int| 0 <= j < args.len() && is_choice((#[trigger] args[j])@) implies dashed(
            args[j]@,
        ) by {
            let kind = choose|kind: Container| names(args[j]@, kind);
            lemma_choice(args[j]@, kind);
            lemma_dashes(args[j]@);
        }
        if begins_with(arg, option) {
            let name = arg.skip(option.len() as int);
            assert(arg =~= option + name);
            match Container::named(name) {
                Some(kind) => {
                    lemma_choice(arg, kind);
                    assert(names(args[i]@, kind));
                    assert(is_choice(args[i]@));
                    lemma_scan_asks(args, i + 1, k, Some(kind));
                },
                None => {
                    if is_choice(arg) {
                        let kind = choose|kind: Container| names(arg, kind);
                        lemma_choice(arg, kind);
                    }
                    assert(complains_at(args, i, "unknown container kind: "@ + name));
                },
            }
        } else {
            assert forall|name: Seq<char>| arg != #[trigger] (option + name) by {
                assert((option + name).take(option.len() as int) =~= option);
            }
            if dashed(arg) {
                assert(complains_at(args, i, "unknown flag: "@ + arg + "\n"@ + USAGE@));
            } else if k < 0 {
                assert(no_path_before(args, i));
                lemma_scan_asks(args, i + 1, i, before);
            } else {
                assert(!dashed(args[k]@));
                assert(!no_path_before(args, i));
                assert(complains_at(args, i, "unexpected positional: "@ + arg));
            }
        }
    } else if k >= 0 {
        assert(!dashed(args[k]@));
        if let Some(kind) = before {
            let j = choose|j: int|
                0 <= j < i && names((#[trigger] args[j])@, kind) && (j == i - 1 || (j == i - 2 && k
                    == i - 1));
            assert(chosen_last(args, k, j, kind));
        }
        assert(is_only_path(args, k, args[k]@, before));
    }
}

pub(crate) proof fn lemma_probe_is_asked(
    args: Seq<String>,
    path: Seq<char>,
    container: Option<Container>,
)
    requires
        asks_to_probe(args, path, container),
    ensures
        asked(texts(args)) == (ArgsView::Probe { path, container }),
{
    let all = texts(args);
    assert(all.skip(0) =~= all);
    lemma_dashes(Seq::empty());
    let k = choose|k: int| #[trigger] asks_at(args, k, path, container);
    assert forall|i: int| 0 <= i < args.len() implies (#[trigger] args[i])@ != "-h"@
        && args[i]@ != "--help"@ by {
        if i != k {
            assert(is_choice(args[i]@));
            let kind = choose|kind: Container| names(args[i]@, kind);
            lemma_choice(args[i]@, kind);
            lemma_dashes(args[i]@);
        }
    }
    lemma_asked_scan(args, 0, k, path, None, container);
    assert(!(exists|i: int| 0 <= i < all.len() && asks_for_help(#[trigger] all[i]))) by {
        if exists|i: int| 0 <= i < all.len() && asks_for_help(#[trigger] all[i]) {
            let i = choose|i: int| 0 <= i < all.len() && asks_for_help(#[trigger] all[i]);
            assert(args[i]@ == all[i]);
        }
    }
}

/// What the arguments ask for, in full. Help is asked for by no argument at all
/// and by `-h` or `--help` anywhere. Otherwise a probe is asked for exactly
/// where one argument is a path and all others name a container, of that path
/// and in the container named last. Otherwise the reason tells what is wrong
/// with the first argument with which anything is, or how the program is called
/// where only the path is missing.
pub proof fn law_arguments_decide(
    args: Seq<String>,
    request: Args,
    path: Seq<char>,
    container: Option<Container>,
)
    requires
        request@ == asked(texts(args)),
    ensures
        request is Help <==> args.len() == 0 || exists|i: int|
            0 <= i < args.len() && ((#[trigger] args[i])@ == "-h"@ || args[i]@ == "--help"@),
        asks_to_probe(args, path, container) <==> (request matches Args::Probe {
            path: asked_path,
            container: asked_container,
        } && asked_path@ == path && asked_container == container),
        request matches Args::Invalid(reason) ==> complains(args, reason@),
{
    let all = texts(args);
    assert(all.skip(0) =~= all);
    lemma_dashes(Seq::empty());
    let help = exists|i: int| 0 <= i < all.len() && asks_for_help(#[trigger] all[i]);
    let help_too = exists|i: int|
        0 <= i < args.len() && ((#[trigger] args[i])@ == "-h"@ || args[i]@ == "--help"@);
    assert(help == help_too) by {
        if help {
            let i = choose|i: int| 0 <= i < all.len() && asks_for_help(#[trigger] all[i]);
            assert(args[i]@ == all[i]);
        }
        if help_too {
            let i = choose|i: int|
                0 <= i < args.len() && ((#[trigger] args[i])@ == "-h"@ || args[i]@ == "--help"@);
            assert(asks_for_help(all[i]));
        }
    }
    if asks_to_probe(args, path, container) {
        lemma_probe_is_asked(args, path, container);
    }
    if args.len() > 0 && !help {
        lemma_scan_asks(args, 0, -1, None);
        if let Args::Probe { path: asked_path, container: asked_container } = request {
            let k = choose|at: int| #[trigger]
                is_only_path(args, at, asked_path@, asked_container);
            assert(asks_at(args, k, asked_path@, asked_container));
        }
    }
}

} // verus!
