use vstd::prelude::*;

verus! {

/// The command-line tools whose limits are reported.
#[derive(Debug, Clone, Copy, PartialEq, Eq, Structural)]
pub enum CliProvider {
    Codex,
    Gemini,
}

/// `codex`
pub open spec fn codex_key() -> Seq<char> {
    seq!['c', 'o', 'd', 'e', 'x']
}

/// `gemini`
pub open spec fn gemini_key() -> Seq<char> {
    seq!['g', 'e', 'm', 'i', 'n', 'i']
}

/// The name by which filters select a provider.
pub open spec fn provider_key(p: CliProvider) -> Seq<char> {
    match p {
        CliProvider::Codex => codex_key(),
        CliProvider::Gemini => gemini_key(),
    }
}

/// The name shown in reports.
pub open spec fn provider_display(p: CliProvider) -> Seq<char> {
    match p {
        CliProvider::Codex => seq!['C', 'o', 'd', 'e', 'x'],
        CliProvider::Gemini => seq!['G', 'e', 'm', 'i', 'n', 'i'],
    }
}

/// The environment variable that overrides where the tool is found.
pub open spec fn provider_env_override(p: CliProvider) -> Seq<char> {
    match p {
        CliProvider::Codex => seq![
            'A', 'I', '_', 'L', 'I', 'M', 'I', 'T', 'S', '_', 'C', 'O', 'D', 'E', 'X', '_', 'C',
            'M', 'D',
        ],
        CliProvider::Gemini => seq![
            'A', 'I', '_', 'L', 'I', 'M', 'I', 'T', 'S', '_', 'G', 'E', 'M', 'I', 'N', 'I', '_',
            'C', 'M', 'D',
        ],
    }
}

/// The command run when no installation is found: the bare name, with
/// `.cmd` on Windows.
pub open spec fn provider_fallback(p: CliProvider, windows: bool) -> Seq<char> {
    let cmd = seq!['.', 'c', 'm', 'd'];
    if windows {
        provider_key(p) + cmd
    } else {
        provider_key(p)
    }
}

impl CliProvider {
    /// `Codex` for a name equal to `codex` ignoring ASCII case, else `Gemini`.
    pub fn from_name(name: &str) -> (r: CliProvider)
        ensures
            r == (if crate::text::ascii_lower(name@) == codex_key() {
                CliProvider::Codex
            } else {
                CliProvider::Gemini
            }),
    {
        let lower = crate::text::to_ascii_lowercase(name);
        proof {
            reveal_strlit("codex");
            assert("codex"@ =~= codex_key());
        }
        if crate::text::str_eq(lower.as_str(), "codex") {
            CliProvider::Codex
        } else {
            CliProvider::Gemini
        }
    }

    /// The command to run when no installation was found; `windows` tells
    /// whether the program runs on Windows.
    pub fn fallback_command(self, windows: bool) -> (r: &'static str)
        ensures
            r@ == provider_fallback(self, windows),
    {
        proof {
            reveal_strlit("codex.cmd");
            reveal_strlit("codex");
            reveal_strlit("gemini.cmd");
            reveal_strlit("gemini");
        }
        match (self, windows) {
            (CliProvider::Codex, true) => {
                assert("codex.cmd"@ =~= provider_fallback(self, windows));
                "codex.cmd"
            },
            (CliProvider::Codex, false) => {
                assert("codex"@ =~= provider_fallback(self, windows));
                "codex"
            },
            (CliProvider::Gemini, true) => {
                assert("gemini.cmd"@ =~= provider_fallback(self, windows));
                "gemini.cmd"
            },
            (CliProvider::Gemini, false) => {
                assert("gemini"@ =~= provider_fallback(self, windows));
                "gemini"
            },
        }
    }

    /// The environment variable that names the tool's command.
    pub fn env_override(self) -> (r: &'static str)
        ensures
            r@ == provider_env_override(self),
    {
        proof {
            reveal_strlit("AI_LIMITS_CODEX_CMD");
            reveal_strlit("AI_LIMITS_GEMINI_CMD");
        }
        match self {
            CliProvider::Codex => {
                assert("AI_LIMITS_CODEX_CMD"@ =~= provider_env_override(self));
                "AI_LIMITS_CODEX_CMD"
            },
            CliProvider::Gemini => {
                assert("AI_LIMITS_GEMINI_CMD"@ =~= provider_env_override(self));
                "AI_LIMITS_GEMINI_CMD"
            },
        }
    }

    /// The name by which filters select this provider.
    pub fn key(self) -> (r: &'static str)
        ensures
            r@ == provider_key(self),
    {
        proof {
            reveal_strlit("codex");
            reveal_strlit("gemini");
        }
        match self {
            CliProvider::Codex => {
                assert("codex"@ =~= provider_key(self));
                "codex"
            },
            CliProvider::Gemini => {
                assert("gemini"@ =~= provider_key(self));
                "gemini"
            },
        }
    }

    /// The name shown in reports.
    pub fn display_name(self) -> (r: &'static str)
        ensures
            r@ == provider_display(self),
    {
        proof {
            reveal_strlit("Codex");
            reveal_strlit("Gemini");
        }
        match self {
            CliProvider::Codex => {
                assert("Codex"@ =~= provider_display(self));
                "Codex"
            },
            CliProvider::Gemini => {
                assert("Gemini"@ =~= provider_display(self));
                "Gemini"
            },
        }
    }
}

} // verus!
