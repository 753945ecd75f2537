//! The picker argv protocol: the same binary is the desktop app (no flags)
//! or a picker child; its command line is parsed once at startup into an
//! immutable configuration.
use vstd::prelude::*;
use vstd::string::StrSliceExecFns;

use crate::entry::opt_str_view;
use crate::text::{str_eq, string_from_chars};

verus! {

/// What kind of chooser the picker renders.
#[derive(Clone, Copy, Debug, PartialEq, Eq, Structural)]
pub enum PickerMode {
    Disabled,
    Files,
    Directories,
    Both,
    Save,
}

/// The picker's startup configuration.
#[derive(Debug)]
pub struct PickerConfig {
    pub mode: PickerMode,
    pub allow_multiple: bool,
    pub file_types: Option<Vec<String>>,
    pub start_dir: Option<String>,
    pub current_name: Option<String>,
}

/// The mathematical reading of a configuration.
pub struct PickerConfigView {
    pub mode: PickerMode,
    pub allow_multiple: bool,
    pub file_types: Option<Seq<Seq<char>>>,
    pub start_dir: Option<Seq<char>>,
    pub current_name: Option<Seq<char>>,
}

/// The view of a configuration value.
pub open spec fn config_view(c: PickerConfig) -> PickerConfigView {
    PickerConfigView {
        mode: c.mode,
        allow_multiple: c.allow_multiple,
        file_types: match c.file_types {
            Some(v) => Some(v.deep_view()),
            None => None,
        },
        start_dir: opt_str_view(c.start_dir),
        current_name: opt_str_view(c.current_name),
    }
}

/// The configuration before any flag is read.
pub open spec fn initial_config() -> PickerConfigView {
    PickerConfigView {
        mode: PickerMode::Disabled,
        allow_multiple: false,
        file_types: None,
        start_dir: None,
        current_name: None,
    }
}

/// Comma-splitting, carried out character by character with the piece
/// built so far.
pub open spec fn split_acc(s: Seq<char>, cur: Seq<char>) -> Seq<Seq<char>>
    decreases s.len(),
{
    if s.len() == 0 {
        seq![cur]
    } else if s.first() == ',' {
        seq![cur] + split_acc(s.drop_first(), Seq::empty())
    } else {
        split_acc(s.drop_first(), cur.push(s.first()))
    }
}

/// The comma-separated pieces of a string; the empty string has one empty
/// piece.
pub open spec fn split_commas(s: Seq<char>) -> Seq<Seq<char>> {
    split_acc(s, Seq::empty())
}

/// Split a `--types` value at commas.
pub fn split_commas_exec(s: &str) -> (r: Vec<String>)
    ensures
        r.deep_view() == split_commas(s@),
{
    let n = s.unicode_len();
    let mut out: Vec<String> = Vec::new();
    let mut cur: Vec<char> = Vec::new();
    let mut i: usize = 0;
    proof {
        assert(s@.skip(0) =~= s@);
        assert(out.deep_view() =~= Seq::<Seq<char>>::empty());
        assert(Seq::<Seq<char>>::empty() + split_acc(s@, cur@) =~= split_acc(s@, cur@));
    }
    while i < n
        invariant
            i <= n,
            n == s@.len(),
            split_commas(s@) == out.deep_view() + split_acc(s@.skip(i as int), cur@),
        decreases n - i,
    {
        let ghost tail = s@.skip(i as int);
        let c = s.get_char(i);
        proof {
            assert(tail.first() == s@[i as int]);
            assert(tail.drop_first() =~= s@.skip(i + 1));
        }
        if c == ',' {
            let ghost before = out.deep_view();
            let ghost curv = cur@;
            let piece = string_from_chars(&cur);
            out.push(piece);
            cur = Vec::new();
            proof {
                assert(split_acc(tail, curv) == seq![curv] + split_acc(
                    s@.skip(i + 1),
                    Seq::empty(),
                ));
                assert(out.deep_view() =~= before.push(curv));
                assert(before + (seq![curv] + split_acc(s@.skip(i + 1), Seq::empty()))
                    =~= out.deep_view() + split_acc(s@.skip(i + 1), Seq::empty()));
                assert(cur@ =~= Seq::<char>::empty());
            }
        } else {
            cur.push(c);
        }
        i = i + 1;
    }
    let piece = string_from_chars(&cur);
    let ghost before = out.deep_view();
    out.push(piece);
    proof {
        assert(s@.skip(n as int) =~= Seq::<char>::empty());
        assert(out.deep_view() =~= before.push(cur@));
        assert(before + seq![cur@] =~= before.push(cur@));
    }
    out
}

/// The reading of the argument list from position `i` on, folded over the
/// configuration built so far: mode flags overwrite the mode, `--multiple`
/// sets the flag, and the three valued flags consume the following
/// argument when there is one.
pub open spec fn parse_from(args: Seq<Seq<char>>, i: int, acc: PickerConfigView) -> (
    PickerConfigView)
    decreases args.len() - i,
    when 0 <= i
{
    if i >= args.len() {
        acc
    } else {
        let a = args[i];
        if a == "--picker"@ {
            parse_from(args, i + 1, PickerConfigView { mode: PickerMode::Files, ..acc })
        } else if a == "--picker-dirs"@ {
            parse_from(args, i + 1, PickerConfigView { mode: PickerMode::Directories, ..acc })
        } else if a == "--picker-both"@ {
            parse_from(args, i + 1, PickerConfigView { mode: PickerMode::Both, ..acc })
        } else if a == "--picker-save"@ {
            parse_from(args, i + 1, PickerConfigView { mode: PickerMode::Save, ..acc })
        } else if a == "--multiple"@ {
            parse_from(args, i + 1, PickerConfigView { allow_multiple: true, ..acc })
        } else if a == "--types"@ {
            if i + 1 < args.len() {
                parse_from(
                    args,
                    i + 2,
                    PickerConfigView { file_types: Some(split_commas(args[i + 1])), ..acc },
                )
            } else {
                parse_from(args, i + 1, acc)
            }
        } else if a == "--start-dir"@ {
            if i + 1 < args.len() {
                parse_from(args, i + 2, PickerConfigView { start_dir: Some(args[i + 1]), ..acc })
            } else {
                parse_from(args, i + 1, acc)
            }
        } else if a == "--current-name"@ {
            if i + 1 < args.len() {
                parse_from(
                    args,
                    i + 2,
                    PickerConfigView { current_name: Some(args[i + 1]), ..acc },
                )
            } else {
                parse_from(args, i + 1, acc)
            }
        } else {
            parse_from(args, i + 1, acc)
        }
    }
}

/// The view of the five working variables of the parser.
pub open spec fn locals_view(
    mode: PickerMode,
    allow_multiple: bool,
    file_types: Option<Vec<String>>,
    start_dir: Option<String>,
    current_name: Option<String>,
) -> PickerConfigView {
    PickerConfigView {
        mode,
        allow_multiple,
        file_types: match file_types {
            Some(v) => Some(v.deep_view()),
            None => None,
        },
        start_dir: opt_str_view(start_dir),
        current_name: opt_str_view(current_name),
    }
}

/// Parse the process's argument list (the program name first) into the
/// picker configuration.
pub fn parse_picker_args(args: &Vec<String>) -> (r: PickerConfig)
    ensures
        config_view(r) == parse_from(args.deep_view(), 1, initial_config()),
{
    let ghost av = args.deep_view();
    let n = args.len();
    let mut mode = PickerMode::Disabled;
    let mut allow_multiple = false;
    let mut file_types: Option<Vec<String>> = None;
    let mut start_dir: Option<String> = None;
    let mut current_name: Option<String> = None;
    let mut i: usize = 1;
    proof {
        assert(locals_view(mode, allow_multiple, file_types, start_dir, current_name)
            == initial_config());
    }
    while i < n
        invariant
            1 <= i,
            i <= n || n < 1,
            n == args@.len(),
            av == args.deep_view(),
            parse_from(av, 1, initial_config()) == parse_from(
                av,
                i as int,
                locals_view(mode, allow_multiple, file_types, start_dir, current_name),
            ),
        decreases n - i,
    {
        let a = &args[i];
        proof {
            assert(av[i as int] == a@);
        }
        if str_eq(a.as_str(), "--picker") {
            mode = PickerMode::Files;
            i = i + 1;
        } else if str_eq(a.as_str(), "--picker-dirs") {
            mode = PickerMode::Directories;
            i = i + 1;
        } else if str_eq(a.as_str(), "--picker-both") {
            mode = PickerMode::Both;
            i = i + 1;
        } else if str_eq(a.as_str(), "--picker-save") {
            mode = PickerMode::Save;
            i = i + 1;
        } else if str_eq(a.as_str(), "--multiple") {
            allow_multiple = true;
            i = i + 1;
        } else if str_eq(a.as_str(), "--types") {
            if i + 1 < n {
                let v = split_commas_exec(args[i + 1].as_str());
                proof {
                    assert(av[i + 1] == args@[i + 1]@);
                }
                file_types = Some(v);
                i = i + 2;
            } else {
                i = i + 1;
            }
        } else if str_eq(a.as_str(), "--start-dir") {
            if i + 1 < n {
                start_dir = Some(args[i + 1].clone());
                proof {
                    assert(av[i + 1] == args@[i + 1]@);
                }
                i = i + 2;
            } else {
                i = i + 1;
            }
        } else if str_eq(a.as_str(), "--current-name") {
            if i + 1 < n {
                current_name = Some(args[i + 1].clone());
                proof {
                    assert(av[i + 1] == args@[i + 1]@);
                }
                i = i + 2;
            } else {
                i = i + 1;
            }
        } else {
            i = i + 1;
        }
    }
    let r = PickerConfig { mode, allow_multiple, file_types, start_dir, current_name };
    proof {
        assert(config_view(r) == locals_view(
            r.mode,
            r.allow_multiple,
            r.file_types,
            r.start_dir,
            r.current_name,
        ));
    }
    r
}

} // verus!
