//! Settings of a session and the command-line flags that change them.

use vstd::prelude::*;
use vstd::string::*;

verus! {

/// The settings of a session.
pub struct Config {
    /// Path of the PDF document.
    pub pdf_path: String,
    /// Name of the completion model.
    pub model: String,
    /// How many passages are retrieved for a question.
    pub top_k: usize,
    /// Dimension of the embeddings.
    pub embedding_dims: usize,
}

/// A `Config` as plain values.
pub struct Settings {
    pub pdf_path: Seq<char>,
    pub model: Seq<char>,
    pub top_k: nat,
    pub embedding_dims: nat,
}

impl View for Config {
    type V = Settings;

    open spec fn view(&self) -> Settings {
        Settings {
            pdf_path: self.pdf_path@,
            model: self.model@,
            top_k: self.top_k as nat,
            embedding_dims: self.embedding_dims as nat,
        }
    }
}

/// Why the command line was refused. Each holds the argument at fault.
pub enum ArgError {
    /// An argument that is none of the known flags.
    UnknownFlag(String),
    /// A flag at the end of the line, without its value.
    MissingValue(String),
    /// A value that is no decimal number, or one too large.
    InvalidNumber(String),
}

/// An `ArgError` as plain values.
pub enum ArgFault {
    UnknownFlag(Seq<char>),
    MissingValue(Seq<char>),
    InvalidNumber(Seq<char>),
}

impl View for ArgError {
    type V = ArgFault;

    open spec fn view(&self) -> ArgFault {
        match self {
            ArgError::UnknownFlag(a) => ArgFault::UnknownFlag(a@),
            ArgError::MissingValue(a) => ArgFault::MissingValue(a@),
            ArgError::InvalidNumber(a) => ArgFault::InvalidNumber(a@),
        }
    }
}

impl ArgError {
    /// The message for this refusal; it names the argument at fault.
    pub open spec fn message_spec(self) -> Seq<char> {
        match self {
            ArgError::UnknownFlag(a) => "Unknown argument: "@ + a@,
            ArgError::MissingValue(a) => "Missing value for "@ + a@,
            ArgError::InvalidNumber(a) => "Not a number: "@ + a@,
        }
    }

    /// The message for this refusal.
    pub fn message(&self) -> (r: String)
        ensures
            r@ == self.message_spec(),
    {
        match self {
            ArgError::UnknownFlag(a) => {
                let mut m: String = "Unknown argument: ".to_owned();
                m.append(a.as_str());
                m
            },
            ArgError::MissingValue(a) => {
                let mut m: String = "Missing value for ".to_owned();
                m.append(a.as_str());
                m
            },
            ArgError::InvalidNumber(a) => {
                let mut m: String = "Not a number: ".to_owned();
                m.append(a.as_str());
                m
            },
        }
    }
}

/// The settings used where no flag says otherwise.
pub open spec fn default_settings() -> Settings {
    Settings { pdf_path: "knowledge.pdf"@, model: "llama3:latest"@, top_k: 3, embedding_dims: 768 }
}

/// Whether `c` is a decimal digit.
pub open spec fn is_digit(c: char) -> bool {
    '0' <= c <= '9'
}

/// The value of a decimal digit; zero for any other character.
pub open spec fn digit_of(c: char) -> nat {
    if is_digit(c) {
        (c as u32 - '0' as u32) as nat
    } else {
        0
    }
}

/// Whether `s` is made of decimal digits only.
pub open spec fn all_digits(s: Seq<char>) -> bool {
    forall|i: int| 0 <= i < s.len() ==> is_digit(#[trigger] s[i])
}

/// The number that the digits of `s` write in base ten.
pub open spec fn decimal_value(s: Seq<char>) -> nat
    decreases s.len(),
{
    if s.len() == 0 {
        0
    } else {
        10 * decimal_value(s.drop_last()) + digit_of(s.last())
    }
}

/// The number that `s` writes, where it is one or more digits and fits.
pub open spec fn number_of(s: Seq<char>) -> Option<usize> {
    if s.len() > 0 && all_digits(s) && decimal_value(s) <= usize::MAX {
        Some(decimal_value(s) as usize)
    } else {
        None
    }
}

/// The settings after the flags from position `from` on were applied to
/// `s`, flag by flag from the left, or the first fault met.
pub open spec fn apply_flags(args: Seq<Seq<char>>, from: int, s: Settings) -> Result<
    Settings,
    ArgFault,
>
    decreases args.len() - from,
{
    if from < 0 || from >= args.len() {
        Ok(s)
    } else {
        let flag = args[from];
        let known = flag == "--pdf"@ || flag == "--model"@ || flag == "--top-k"@ || flag
            == "--embedding-dims"@;
        if !known {
            Err(ArgFault::UnknownFlag(flag))
        } else if from + 1 >= args.len() {
            Err(ArgFault::MissingValue(flag))
        } else {
            let value = args[from + 1];
            if flag == "--pdf"@ {
                apply_flags(
                    args,
                    from + 2,
                    Settings {
                        pdf_path: value,
                        model: s.model,
                        top_k: s.top_k,
                        embedding_dims: s.embedding_dims,
                    },
                )
            } else if flag == "--model"@ {
                apply_flags(
                    args,
                    from + 2,
                    Settings {
                        pdf_path: s.pdf_path,
                        model: value,
                        top_k: s.top_k,
                        embedding_dims: s.embedding_dims,
                    },
                )
            } else {
                match number_of(value) {
                    None => Err(ArgFault::InvalidNumber(value)),
                    Some(n) => if flag == "--top-k"@ {
                        apply_flags(
                            args,
                            from + 2,
                            Settings {
                                pdf_path: s.pdf_path,
                                model: s.model,
                                top_k: n as nat,
                                embedding_dims: s.embedding_dims,
                            },
                        )
                    } else {
                        apply_flags(
                            args,
                            from + 2,
                            Settings {
                                pdf_path: s.pdf_path,
                                model: s.model,
                                top_k: s.top_k,
                                embedding_dims: n as nat,
                            },
                        )
                    },
                }
            }
        }
    }
}

/// The views of a list of arguments.
pub open spec fn views_of(args: Seq<String>) -> Seq<Seq<char>> {
    Seq::new(args.len(), |i: int| args[i]@)
}

proof fn lemma_decimal_prefix_grows(s: Seq<char>, i: int)
    requires
        0 <= i <= s.len(),
    ensures
        decimal_value(s.subrange(0, i)) <= decimal_value(s),
    decreases s.len() - i,
{
    if i < s.len() {
        let next = s.subrange(0, i + 1);
        assert(next.drop_last() =~= s.subrange(0, i));
        lemma_decimal_prefix_grows(s, i + 1);
    } else {
        assert(s.subrange(0, i) =~= s);
    }
}

impl Config {
    /// The settings used where no flag says otherwise.
    pub fn standard() -> (r: Config)
        ensures
            r@ == default_settings(),
    {
        Config {
            pdf_path: "knowledge.pdf".to_owned(),
            model: "llama3:latest".to_owned(),
            top_k: 3,
            embedding_dims: 768,
        }
    }
}

/// Reads a decimal number: one or more digits, nothing else, and a value
/// that fits `usize`.
pub fn parse_number(s: &str) -> (r: Option<usize>)
    ensures
        r == number_of(s@),
{
    let n: usize = s.unicode_len();
    if n == 0 {
        return None;
    }
    let mut acc: usize = 0;
    let mut i: usize = 0;
    assert(s@.subrange(0, 0).len() == 0);
    while i < n
        invariant
            n == s@.len(),
            i <= n,
            all_digits(s@.subrange(0, i as int)),
            acc == decimal_value(s@.subrange(0, i as int)),
        decreases n - i,
    {
        let c: char = s.get_char(i);
        if c < '0' || c > '9' {
            assert(!is_digit(s@[i as int]));
            return None;
        }
        let d: usize = (c as u32 - '0' as u32) as usize;
        proof {
            let next = s@.subrange(0, i + 1);
            assert(next.drop_last() =~= s@.subrange(0, i as int));
            assert(next.last() == c);
            assert(decimal_value(next) == 10 * acc + d);
            assert forall|j: int| 0 <= j < next.len() implies is_digit(#[trigger] next[j]) by {
                if j < i {
                    assert(next[j] == s@.subrange(0, i as int)[j]);
                }
            }
            lemma_decimal_prefix_grows(s@, i + 1);
        }
        if acc > (usize::MAX - d) / 10 {
            return None;
        }
        acc = 10 * acc + d;
        i = i + 1;
    }
    assert(s@.subrange(0, n as int) =~= s@);
    Some(acc)
}

/// Reads the command-line arguments (without the program's name) into
/// settings. Flags come with their value as the next argument:
/// `--pdf <path>`, `--model <name>`, `--top-k <n>`, `--embedding-dims <n>`;
/// a flag given twice counts the last time. What no flag sets keeps its
/// default.
pub fn parse_args(args: &Vec<String>) -> (r: Result<Config, ArgError>)
    ensures
        match apply_flags(views_of(args@), 0, default_settings()) {
            Ok(s) => r is Ok && r->Ok_0@ == s,
            Err(f) => r is Err && r->Err_0@ == f,
        },
{
    let ghost all = views_of(args@);
    let mut cfg: Config = Config::standard();
    let n: usize = args.len();
    let mut i: usize = 0;
    while i < n
        invariant
            n == args.len(),
            all == views_of(args@),
            i <= n,
            apply_flags(all, 0, default_settings()) == apply_flags(all, i as int, cfg@),
        decreases n - i,
    {
        let flag: &String = &args[i];
        assert(all[i as int] == flag@);
        let is_pdf: bool = *flag == "--pdf".to_owned();
        let is_model: bool = *flag == "--model".to_owned();
        let is_top_k: bool = *flag == "--top-k".to_owned();
        let is_dims: bool = *flag == "--embedding-dims".to_owned();
        if !(is_pdf || is_model || is_top_k || is_dims) {
            return Err(ArgError::UnknownFlag(flag.clone()));
        }
        if n - i < 2 {
            return Err(ArgError::MissingValue(flag.clone()));
        }
        let value: &String = &args[i + 1];
        assert(all[i + 1] == value@);
        if is_pdf {
            cfg.pdf_path = value.clone();
        } else if is_model {
            cfg.model = value.clone();
        } else {
            match parse_number(value.as_str()) {
                None => {
                    return Err(ArgError::InvalidNumber(value.clone()));
                },
                Some(number) => {
                    if is_top_k {
                        cfg.top_k = number;
                    } else {
                        cfg.embedding_dims = number;
                    }
                },
            }
        }
        i = i + 2;
    }
    Ok(cfg)
}

} // verus!
