//! The shell integration script that `aka shell-init` prints.
use vstd::prelude::*;
use crate::text::chars_of;

verus! {

/// The zsh integration: space expands the first word, Enter rewrites the
/// whole line before it runs, Ctrl-T searches the aliases, and a file
/// `~/aka-killswitch` turns every expansion off.
pub const ZSH_INIT_SCRIPT: &'static str = r##"# aka: alias expansion for zsh
#
# Load it from ~/.zshrc with:
#
#   if hash aka 2>/dev/null; then
#       eval "$(aka shell-init zsh)"
#   fi
#
# While the file ~/aka-killswitch exists, nothing is expanded.

_aka_killswitch() {
    [[ -e ~/aka-killswitch ]]
}

# Space: expand the first word, then insert the space as usual.
_aka_expand_space() {
    if _aka_killswitch; then
        zle self-insert
        return
    fi
    local output
    output="$(aka query "$BUFFER" 2>/dev/null)"
    if [[ $? -eq 0 && -n "$output" ]]; then
        POSTDISPLAY=""
        BUFFER="$output"
        CURSOR=${#BUFFER}
        zle reset-prompt
    else
        zle self-insert
    fi
}

# Enter: rewrite the whole line, then run it.
_aka_accept_line() {
    if ! _aka_killswitch; then
        local output
        output="$(aka --eol query "$BUFFER" 2>/dev/null)"
        if [[ $? -eq 0 && -n "$output" ]]; then
            POSTDISPLAY=""
            BUFFER="$output"
            CURSOR=${#BUFFER}
            zle reset-prompt
        fi
    fi
    zle .accept-line
}

# Ctrl-T: pick an alias with sk or fzf and insert its name.
_aka_search() {
    local finder
    if (( $+commands[sk] )); then
        finder=sk
    elif (( $+commands[fzf] )); then
        finder=fzf
    else
        zle -M "aka: alias search needs sk or fzf"
        return 1
    fi
    local selected
    selected="$(aka ls 2>/dev/null | $finder --ansi)"
    if [[ -n "$selected" ]]; then
        selected="${selected%% -> *}"
        selected="${selected##* }"
        LBUFFER="${LBUFFER}${selected}"
    fi
    zle reset-prompt
}

# Completion of alias names after `aka query`.
_aka_complete_commands() {
    local -a names
    names=("${(@f)$(aka __complete_aliases 2>/dev/null)}")
    compadd -a names
}

zle -N _aka_expand_space
zle -N _aka_accept_line
zle -N _aka_search
zle -N accept-line _aka_accept_line

bindkey " " _aka_expand_space
bindkey "^t" _aka_search

if (( $+functions[compdef] )); then
    compdef _aka_complete_commands aka
fi
"##;

/// The text `s` with ASCII capitals lowered.
pub open spec fn lowered(s: Seq<char>) -> Seq<char> {
    s.map_values(|c: char| crate::text::ascii_lower(c))
}

/// The initialization script for `shell`, named in any case; only zsh has
/// one.
pub fn generate_init_script(shell: &str) -> (r: Option<&'static str>)
    ensures
        r is Some <==> lowered(shell@) == seq!['z', 's', 'h'],
        r matches Some(s) ==> s@ == ZSH_INIT_SCRIPT@,
{
    let v = chars_of(shell);
    let is_zsh = v.len() == 3 && lower_char(v[0]) == 'z' && lower_char(v[1]) == 's' && lower_char(
        v[2],
    ) == 'h';
    if is_zsh {
        assert(lowered(shell@) =~= seq!['z', 's', 'h']);
        Some(ZSH_INIT_SCRIPT)
    } else {
        assert(lowered(shell@) != seq!['z', 's', 'h']) by {
            if lowered(shell@) == seq!['z', 's', 'h'] {
                assert(lowered(shell@).len() == shell@.len());
                assert(v@.len() == 3);
                assert(lowered(shell@)[0] == crate::text::ascii_lower(v@[0]));
                assert(lowered(shell@)[1] == crate::text::ascii_lower(v@[1]));
                assert(lowered(shell@)[2] == crate::text::ascii_lower(v@[2]));
            }
        }
        None
    }
}

/// `c` with an ASCII capital lowered.
fn lower_char(c: char) -> (r: char)
    ensures
        r == crate::text::ascii_lower(c),
{
    if 'A' <= c && c <= 'Z' {
        ((c as u8) + 32) as char
    } else {
        c
    }
}

/// The shells that have an initialization script.
pub fn supported_shells() -> (r: Vec<&'static str>)
    ensures
        r@.len() == 1,
        r@[0]@ == "zsh"@,
{
    let mut r: Vec<&'static str> = Vec::new();
    r.push("zsh");
    r
}

} // verus!
