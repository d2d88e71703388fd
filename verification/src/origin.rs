//! The origin of a record: the name of its source file and the line.
use vstd::prelude::*;
use vstd::string::StringExecFns;

verus! {

/// The character of a decimal digit.
pub open spec fn digit_char(digit: nat) -> char {
    if digit == 0 {
        '0'
    } else if digit == 1 {
        '1'
    } else if digit == 2 {
        '2'
    } else if digit == 3 {
        '3'
    } else if digit == 4 {
        '4'
    } else if digit == 5 {
        '5'
    } else if digit == 6 {
        '6'
    } else if digit == 7 {
        '7'
    } else if digit == 8 {
        '8'
    } else {
        '9'
    }
}

/// A number in decimal notation, without leading zeros.
pub open spec fn decimal_text(n: nat) -> Seq<char>
    decreases n,
{
    if n < 10 {
        seq![digit_char(n)]
    } else {
        decimal_text(n / 10).push(digit_char(n % 10))
    }
}

/// The origin that is printed for a record: the name of the file, a colon
/// and the line; empty where either of them is not known.
pub open spec fn origin_label(base: Option<Seq<char>>, line: Option<nat>) -> Seq<char> {
    match (base, line) {
        (Some(name), Some(number)) => name + seq![':'] + decimal_text(number),
        _ => Seq::empty(),
    }
}

/// A line number as a natural number.
pub open spec fn line_number(line: Option<u32>) -> Option<nat> {
    match line {
        Some(number) => Some(number as nat),
        None => None,
    }
}

/// The text of one decimal digit.
fn digit_text(digit: u32) -> (text: &'static str)
    requires
        digit < 10,
    ensures
        text@ == seq![digit_char(digit as nat)],
{
    proof {
        reveal_strlit("0");
        reveal_strlit("1");
        reveal_strlit("2");
        reveal_strlit("3");
        reveal_strlit("4");
        reveal_strlit("5");
        reveal_strlit("6");
        reveal_strlit("7");
        reveal_strlit("8");
        reveal_strlit("9");
    }
    let text = if digit == 0 {
        "0"
    } else if digit == 1 {
        "1"
    } else if digit == 2 {
        "2"
    } else if digit == 3 {
        "3"
    } else if digit == 4 {
        "4"
    } else if digit == 5 {
        "5"
    } else if digit == 6 {
        "6"
    } else if digit == 7 {
        "7"
    } else if digit == 8 {
        "8"
    } else {
        "9"
    };
    assert(text@ =~= seq![digit_char(digit as nat)]);
    text
}

/// Appends `n` in decimal notation to `out`.
pub fn push_decimal(out: &mut String, n: u32)
    ensures
        final(out)@ == old(out)@ + decimal_text(n as nat),
    decreases n,
{
    if n >= 10 {
        push_decimal(out, n / 10);
    }
    out.append(digit_text(n % 10));
    assert(final(out)@ =~= old(out)@ + decimal_text(n as nat));
}

/// Whether a path is a single name on every platform: it is not empty, it
/// is neither `.` nor `..`, and it holds no slash, no backslash and no
/// colon.
pub open spec fn is_single_name(path: Seq<char>) -> bool {
    &&& path.len() > 0
    &&& path != seq!['.']
    &&& path != seq!['.', '.']
    &&& forall|i: int|
        0 <= i < path.len() ==> (#[trigger] path[i]) != '/' && path[i] != '\\' && path[i] != ':'
}

/// Whether `name` is something that the last component of `path` can be: a
/// name is never empty, and a path that is a single name is its own last
/// component.
pub open spec fn is_base_name_of(path: Seq<char>, name: Option<Seq<char>>) -> bool {
    &&& name matches Some(text) ==> text.len() > 0
    &&& is_single_name(path) ==> name == Some(path)
}

/// The last component of `path`, as the file system of this machine reads
/// paths; nothing where the path has none, or where it is not Unicode.
///
/// Calls std's `Path::file_name`. The contract is trusted, and states what
/// the documentation of `Path` gives for every platform: a component is
/// never empty, and a path without a separator (a slash, or on Windows a
/// backslash) and without a prefix (on Windows, a drive and its colon) that
/// is neither `.` nor `..` is one normal component, which is the file name.
/// Of other paths nothing more is stated: what counts as a separator depends
/// on the platform.
#[verifier::external_body]
pub(crate) fn base_name(path: &str) -> (name: Option<String>)
    ensures
        is_base_name_of(
            path@,
            match name {
                Some(text) => Some(text@),
                None => None,
            },
        ),
{
    std::path::Path::new(path).file_name().and_then(|name| name.to_str()).map(
        |name| name.to_owned(),
    )
}

/// The origin of a record whose file has the name `base` and which was
/// logged in line `line`.
pub fn origin_label_of(base: Option<&str>, line: Option<u32>) -> (label: String)
    ensures
        label@ == origin_label(
            match base {
                Some(name) => Some(name@),
                None => None,
            },
            line_number(line),
        ),
{
    match (base, line) {
        (Some(name), Some(number)) => {
            proof {
                reveal_strlit(":");
            }
            let mut label = String::from_str(name);
            label.append(":");
            assert(label@ =~= name@ + seq![':']);
            push_decimal(&mut label, number);
            label
        },
        _ => String::new(),
    }
}

/// The origin of a record that was logged in line `line` of the file at the
/// path `file`: the last component of the path, a colon and the line. It is
/// empty where the file or the line is not known, and where the path has no
/// last component.
pub fn file_name(file: Option<&str>, line: Option<u32>) -> (label: String)
    ensures
        file is None || line is None ==> label@ == Seq::<char>::empty(),
        file matches Some(path) ==> exists|base: Option<Seq<char>>|
            {
                &&& is_base_name_of(path@, base)
                &&& label@ == #[trigger] origin_label(base, line_number(line))
            },
        file matches Some(path) ==> (is_single_name(path@) ==> label@ == origin_label(
            Some(path@),
            line_number(line),
        )),
{
    match file {
        Some(path) => {
            let base = base_name(path);
            match &base {
                Some(name) => {
                    let label = origin_label_of(Some(name.as_str()), line);
                    assert(label@ == origin_label(Some(name@), line_number(line)));
                    label
                },
                None => {
                    let label = origin_label_of(None, line);
                    assert(label@ == origin_label(None, line_number(line)));
                    label
                },
            }
        },
        None => origin_label_of(None, line),
    }
}

} // verus!
