//! Shells, their activation command lines, and the settings the tool runs
//! under.

use vstd::prelude::*;
use vstd::string::*;

verus! {

broadcast use vstd::string::group_string_axioms;

/// The shells an activation command can be produced for.
#[derive(Clone, Copy, Debug, PartialEq, Eq, Structural)]
pub enum Shell {
    ZSH,
    BASH,
    FISH,
    CSH,
    TSCH,
    PWSH,
    CMD,
    POWERSHELL,
}

/// The activation command line for a shell, given the binaries directory.
pub open spec fn activation_spec(s: Shell, p: Seq<char>) -> Seq<char> {
    match s {
        Shell::ZSH | Shell::BASH => "source "@ + p + "/activate"@,
        Shell::FISH => "source "@ + p + "/activate.fish"@,
        Shell::CSH | Shell::TSCH => "source "@ + p + "/activate.csh"@,
        Shell::PWSH => p + "/Activate.ps1"@,
        Shell::CMD => p + "\\activate.bat"@,
        Shell::POWERSHELL => p + "\\Activate.ps1"@,
    }
}

/// The code point a letter compares as when case is ignored.
pub open spec fn lower_cp(c: char) -> int {
    if 'A' <= c <= 'Z' {
        c as int + 32
    } else {
        c as int
    }
}

/// Case-insensitive equality over ASCII letters.
pub open spec fn eq_ci_spec(a: Seq<char>, b: Seq<char>) -> bool {
    a.len() == b.len() && forall|i: int| 0 <= i < a.len() ==> lower_cp(a[i]) == lower_cp(b[i])
}

/// Compares two names ignoring ASCII letter case.
pub fn eq_ignore_case(a: &str, b: &str) -> (r: bool)
    ensures
        r == eq_ci_spec(a@, b@),
{
    let na = a.unicode_len();
    let nb = b.unicode_len();
    if na != nb {
        return false;
    }
    let mut i: usize = 0;
    while i < na
        invariant
            0 <= i <= na,
            na == a@.len(),
            na == b@.len(),
            forall|j: int| 0 <= j < i ==> lower_cp(a@[j]) == lower_cp(b@[j]),
        decreases na - i,
    {
        let ca = a.get_char(i);
        let cb = b.get_char(i);
        let la: u32 = if 'A' <= ca && ca <= 'Z' {
            ca as u32 + 32
        } else {
            ca as u32
        };
        let lb: u32 = if 'A' <= cb && cb <= 'Z' {
            cb as u32 + 32
        } else {
            cb as u32
        };
        if la != lb {
            return false;
        }
        i = i + 1;
    }
    true
}

impl Shell {
    /// The command line that activates an environment in this shell.
    pub fn activation(&self, path_str: &str) -> (r: String)
        ensures
            r@ == activation_spec(*self, path_str@),
    {
        let mut r = String::new();
        match self {
            Shell::ZSH | Shell::BASH => {
                r.append("source ");
                r.append(path_str);
                r.append("/activate");
            },
            Shell::FISH => {
                r.append("source ");
                r.append(path_str);
                r.append("/activate.fish");
            },
            Shell::CSH | Shell::TSCH => {
                r.append("source ");
                r.append(path_str);
                r.append("/activate.csh");
            },
            Shell::PWSH => {
                r.append(path_str);
                r.append("/Activate.ps1");
            },
            Shell::CMD => {
                r.append(path_str);
                r.append("\\activate.bat");
            },
            Shell::POWERSHELL => {
                r.append(path_str);
                r.append("\\Activate.ps1");
            },
        }
        proof {
            assert(r@ =~= activation_spec(*self, path_str@));
        }
        r
    }

    /// The accepted shell names, in their canonical order.
    pub fn variants() -> (r: Vec<&'static str>)
        ensures
            r@.len() == 8,
            r@[0]@ == "zsh"@,
            r@[1]@ == "bash"@,
            r@[2]@ == "fish"@,
            r@[3]@ == "csh"@,
            r@[4]@ == "tsch"@,
            r@[5]@ == "pwsh"@,
            r@[6]@ == "cmd"@,
            r@[7]@ == "powershell"@,
    {
        let mut r: Vec<&'static str> = Vec::new();
        r.push("zsh");
        r.push("bash");
        r.push("fish");
        r.push("csh");
        r.push("tsch");
        r.push("pwsh");
        r.push("cmd");
        r.push("powershell");
        r
    }

    /// Reads a shell from its name, ignoring letter case. An unrecognized
    /// name — `pwsh` among them — is reported back with an explanation.
    pub fn try_from(value: String) -> (r: Result<Shell, String>)
        ensures
            match r {
                Ok(s) => match s {
                    Shell::ZSH => eq_ci_spec(value@, "zsh"@),
                    Shell::BASH => eq_ci_spec(value@, "bash"@),
                    Shell::FISH => eq_ci_spec(value@, "fish"@),
                    Shell::CSH => eq_ci_spec(value@, "csh"@),
                    Shell::TSCH => eq_ci_spec(value@, "tsch"@),
                    Shell::CMD => eq_ci_spec(value@, "cmd"@),
                    Shell::POWERSHELL => eq_ci_spec(value@, "powershell"@),
                    Shell::PWSH => false,
                },
                Err(m) => m@ == value@
                    + " is not a valid shell. Use one of the following values: zsh, bash, fish, csh, tsch, cmd, powershell."@,
            },
    {
        let v = value.as_str();
        if eq_ignore_case(v, "zsh") {
            Ok(Shell::ZSH)
        } else if eq_ignore_case(v, "bash") {
            Ok(Shell::BASH)
        } else if eq_ignore_case(v, "fish") {
            Ok(Shell::FISH)
        } else if eq_ignore_case(v, "csh") {
            Ok(Shell::CSH)
        } else if eq_ignore_case(v, "tsch") {
            Ok(Shell::TSCH)
        } else if eq_ignore_case(v, "cmd") {
            Ok(Shell::CMD)
        } else if eq_ignore_case(v, "powershell") {
            Ok(Shell::POWERSHELL)
        } else {
            let mut m = value;
            m.append(
                " is not a valid shell. Use one of the following values: zsh, bash, fish, csh, tsch, cmd, powershell.",
            );
            Err(m)
        }
    }
}

/// Optional extras the tool can be told to use.
#[derive(Debug, Clone, PartialEq, Eq)]
pub struct ExtraFeatures {
    pub use_xclip: bool,
}

/// The running configuration: the shell to emit activation commands for, an
/// optional default environments directory, and the extras.
#[derive(Debug, Clone, PartialEq, Eq)]
pub struct Settings {
    pub shell: Shell,
    pub venvs_dir: Option<String>,
    pub extra: ExtraFeatures,
}

/// Every path separator doubled into an escaped backslash, the form a
/// Windows activation command is quoted in outside the native shells.
pub open spec fn win_escape_spec(s: Seq<char>) -> Seq<char>
    decreases s,
{
    if s.len() == 0 {
        Seq::empty()
    } else {
        (if s[0] == '/' || s[0] == '\\' {
            seq!['\\', '\\']
        } else {
            seq![s[0]]
        }) + win_escape_spec(s.drop_first())
    }
}

proof fn lemma_win_escape_snoc(s: Seq<char>, i: int)
    requires
        0 <= i < s.len(),
    ensures
        win_escape_spec(s.take(i + 1)) =~= win_escape_spec(s.take(i)) + (if s[i] == '/' || s[i]
            == '\\' {
            seq!['\\', '\\']
        } else {
            seq![s[i]]
        }),
    decreases i,
{
    if i == 0 {
        assert(s.take(0) =~= Seq::<char>::empty());
        assert(s.take(1).drop_first() =~= Seq::<char>::empty());
    } else {
        lemma_win_escape_snoc(s.drop_first(), i - 1);
        assert(s.take(i + 1).drop_first() =~= s.drop_first().take(i));
        assert(s.take(i).drop_first() =~= s.drop_first().take(i - 1));
        assert(s.drop_first()[i - 1] == s[i]);
    }
}

/// Rewrites a command with every path separator as a doubled backslash.
pub fn win_escape(s: &str) -> (r: String)
    ensures
        r@ == win_escape_spec(s@),
{
    let n = s.unicode_len();
    let mut r = String::new();
    let mut i: usize = 0;
    proof {
        assert(s@.take(0) =~= Seq::<char>::empty());
        assert(r@ =~= win_escape_spec(s@.take(0)));
    }
    while i < n
        invariant
            0 <= i <= n,
            n == s@.len(),
            r@ == win_escape_spec(s@.take(i as int)),
        decreases n - i,
    {
        let c = s.get_char(i);
        if c == '/' || c == '\\' {
            r.append("\\\\");
            proof {
                reveal_strlit("\\\\");
                lemma_win_escape_snoc(s@, i as int);
                assert("\\\\"@ =~= seq!['\\', '\\']);
                assert(r@ =~= win_escape_spec(s@.take(i + 1)));
            }
        } else {
            let piece = s.substring_char(i, i + 1);
            r.append(piece);
            proof {
                lemma_win_escape_snoc(s@, i as int);
                assert(piece@ =~= seq![s@[i as int]]);
                assert(r@ =~= win_escape_spec(s@.take(i + 1)));
            }
        }
        i = i + 1;
    }
    proof {
        assert(s@.take(n as int) =~= s@);
    }
    r
}

/// Produces the Windows activation command: the shell's own line, escaped
/// for the non-native shells.
#[derive(Debug, Clone, PartialEq, Eq)]
pub struct WindowsActivation {
    pub shell: Shell,
}

impl WindowsActivation {
    /// The text the activation integration prints and copies.
    pub fn command_text(&self, path: &str) -> (r: String)
        ensures
            r@ == if self.shell is CMD || self.shell is POWERSHELL {
                activation_spec(self.shell, path@)
            } else {
                win_escape_spec(activation_spec(self.shell, path@))
            },
    {
        let cmd = self.shell.activation(path);
        match self.shell {
            Shell::CMD | Shell::POWERSHELL => cmd,
            _ => win_escape(cmd.as_str()),
        }
    }
}

/// Produces the Linux activation command: the shell's own line, unchanged.
#[derive(Debug, Clone, PartialEq, Eq)]
pub struct LinuxActivation {
    pub shell: Shell,
    pub config: Settings,
}

impl LinuxActivation {
    /// The text the activation integration prints and copies.
    pub fn command_text(&self, path: &str) -> (r: String)
        ensures
            r@ == activation_spec(self.shell, path@),
    {
        self.shell.activation(path)
    }
}

} // verus!
