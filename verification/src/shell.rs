//! The integration with a shell: what it is started with, and how its input line is changed.

use crate::text;
use vstd::prelude::*;

verus! {

/// What a shell reads first. It restores the environment of the user, and then has the shell tell
/// which commands it runs and what is typed. It also lets the input line be replaced from outside.
pub const ZSHENV: &'static str = r#"# termul shell integration, generated; safe with the plugins of the user
() {
  # Restore ZDOTDIR, so that the .zshrc and .zprofile of the user are read as usual.
  if [[ -n "$TERMUL_ORIG_ZDOTDIR" ]]; then
    export ZDOTDIR="$TERMUL_ORIG_ZDOTDIR"
  else
    unset ZDOTDIR
  fi
  unset TERMUL_ORIG_ZDOTDIR
  local zdd="${ZDOTDIR:-$HOME}"
  [[ -f "$zdd/.zshenv" ]] && source "$zdd/.zshenv"
}

if [[ -o interactive ]]; then
  autoload -Uz add-zsh-hook add-zle-hook-widget

  _termul_preexec() {
    local b64cmd b64cwd
    b64cmd="$(print -rn -- "$1" | base64 | tr -d '\n')"
    b64cwd="$(print -rn -- "$PWD" | base64 | tr -d '\n')"
    printf '\e]1337;TermulCmd=%s;%s\a' "$b64cmd" "$b64cwd"
  }
  _termul_precmd() {
    printf '\e]1337;TermulEnd=%d\a' "$?"
  }
  # Tells the input line whenever zle draws it again. It has to go to /dev/tty: inside a zle widget
  # the standard output does not reach the terminal.
  _termul_report_buffer() {
    local b64buf b64cwd
    b64buf="$(print -rn -- "$BUFFER" | base64 | tr -d '\n')"
    b64cwd="$(print -rn -- "$PWD" | base64 | tr -d '\n')"
    printf '\e]1337;TermulBuf=%d;%s;%s\a' "$CURSOR" "$b64buf" "$b64cwd" >/dev/tty
  }

  # Reads the edit that was written for this pane, and applies it to zle in one go. The first line
  # of the file is CURSOR, the rest is BUFFER, which may have several lines.
  _termul_apply_edit() {
    local cursor buffer
    { IFS= read -r cursor; IFS= read -r -d '' buffer; } <"$TERMUL_EDIT_FILE"
    [[ "$cursor" == <-> ]] || return
    printf '\e[?2026h' >/dev/tty
    BUFFER="$buffer"
    CURSOR="$cursor"
    POSTDISPLAY=''
    zle redisplay
    printf '\e[?2026l' >/dev/tty
  }

  # Enter behind an odd number of backslashes puts a line break into BUFFER, so that a command of
  # several lines stays one buffer, instead of its first lines going to the read-only PREBUFFER.
  _termul_accept_line() {
    local trailing=${BUFFER##*[^\\]}
    if (( ${#trailing} % 2 )); then
      BUFFER+=$'\n'
      CURSOR=${#BUFFER}
      return
    fi
    zle _termul_orig_accept_line -- "$@"
  }

  # Installs the hooks once the .zshrc of the user was read, so that no plugin overrides them.
  _termul_init() {
    add-zsh-hook -d precmd _termul_init
    add-zsh-hook preexec _termul_preexec
    add-zsh-hook precmd _termul_precmd
    add-zle-hook-widget line-pre-redraw _termul_report_buffer
    zle -A accept-line _termul_orig_accept_line
    zle -N accept-line _termul_accept_line
    zle -N _termul_apply_edit
    bindkey -M emacs $'\e[99~' _termul_apply_edit
    bindkey -M viins $'\e[99~' _termul_apply_edit
  }
  add-zsh-hook precmd _termul_init
fi
"#;

/// The directory with the files of the integration.
#[derive(Debug)]
pub struct ShellIntegration {
    pub dir: String,
}

/// A change of the input line: the file to write, and the keys that make the shell take it.
#[derive(Debug, PartialEq, Eq)]
pub struct ZleEdit {
    pub file: String,
    pub contents: String,
    pub keys: Vec<u8>,
}

/// A name in a directory.
pub open spec fn path_in(dir: Seq<char>, name: Seq<char>) -> Seq<char> {
    if dir.len() == 0 || dir.last() == '/' {
        dir + name
    } else {
        dir.push('/') + name
    }
}

/// A name in a directory.
pub fn join_path(dir: &str, name: &[char]) -> (r: String)
    ensures
        r@ == path_in(dir@, name@),
{
    let mut out = text::chars_of(dir);
    let n: usize = out.len();
    if n > 0 && out[n - 1] != '/' {
        out.push('/');
    }
    let mut tail = text::part(name, 0, name.len());
    assert(tail@ =~= name@);
    out.append(&mut tail);
    text::string_of(&out)
}

/// The last name in a path. Empty names and single dots do not count.
pub open spec fn last_name(parts: Seq<Seq<char>>) -> Option<Seq<char>>
    decreases parts.len(),
{
    if parts.len() == 0 {
        None
    } else if parts.last().len() == 0 || parts.last() == "."@ {
        last_name(parts.drop_last())
    } else {
        Some(parts.last())
    }
}

/// Whether a path names zsh.
pub open spec fn is_zsh_path(shell: Seq<char>) -> bool {
    last_name(text::fields(shell, '/')) == Some("zsh"@)
}

/// Whether a path names zsh.
pub fn is_zsh(shell: &str) -> (r: bool)
    ensures
        r == is_zsh_path(shell@),
{
    let chars = text::chars_of(shell);
    let parts = text::split(&chars, '/');
    let ghost fields = text::fields(shell@, '/');
    let mut n: usize = parts.len();
    assert(fields.len() == n);
    assert(fields.take(n as int) =~= fields);
    while n > 0
        invariant
            n <= parts@.len(),
            fields == text::views(parts@),
            last_name(fields) == last_name(fields.take(n as int)),
            fields == text::fields(shell@, '/'),
        decreases n,
    {
        let ghost head = fields.take(n as int);
        assert(head.last() == parts@[n - 1]@);
        assert(head.drop_last() =~= fields.take(n - 1));
        if parts[n - 1].len() != 0 && !text::is_text(&parts[n - 1], ".") {
            return text::is_text(&parts[n - 1], "zsh");
        }
        n = n - 1;
    }
    false
}

impl ShellIntegration {
    /// The file for a change of the input line of a pane.
    pub open spec fn edit_path(&self, pane_id: int) -> Seq<char> {
        path_in(self.dir@, "edit-"@ + text::decimal(pane_id))
    }

    /// The file for a change of the input line of a pane.
    pub fn edit_file(&self, pane_id: u64) -> (r: String)
        ensures
            r@ == self.edit_path(pane_id as int),
    {
        let mut name = text::chars_of("edit-");
        text::push_decimal(&mut name, pane_id);
        join_path(self.dir.as_str(), &name)
    }

    /// The variables that a shell is started with. Only zsh is supported; any other shell is
    /// started without. `zdotdir` is the value of `ZDOTDIR`, empty where it is not set.
    pub fn env_for(&self, shell: &str, pane_id: u64, zdotdir: &str) -> (r: Vec<(String, String)>)
        ensures
            env_view(r@) == (if is_zsh_path(shell@) {
                seq![
                    ("ZDOTDIR"@, self.dir@),
                    ("TERMUL_ORIG_ZDOTDIR"@, zdotdir@),
                    ("TERMUL_EDIT_FILE"@, self.edit_path(pane_id as int)),
                ]
            } else {
                Seq::empty()
            }),
    {
        let mut env: Vec<(String, String)> = Vec::new();
        if is_zsh(shell) {
            env.push(("ZDOTDIR".to_string(), self.dir.clone()));
            env.push(("TERMUL_ORIG_ZDOTDIR".to_string(), zdotdir.to_string()));
            env.push(("TERMUL_EDIT_FILE".to_string(), self.edit_file(pane_id)));
            assert(env_view(env@) =~= seq![
                ("ZDOTDIR"@, self.dir@),
                ("TERMUL_ORIG_ZDOTDIR"@, zdotdir@),
                ("TERMUL_EDIT_FILE"@, self.edit_path(pane_id as int)),
            ]);
        } else {
            assert(env_view(env@) =~= Seq::empty());
        }
        env
    }

    /// Whether the input line can be changed to this text and cursor.
    pub open spec fn can_edit(buffer: Seq<char>, cursor: int) -> bool {
        !buffer.contains('\0') && cursor <= buffer.len()
    }

    /// What is written, and typed, to change the input line of a pane: the cursor on a line of its
    /// own, then the text. Nothing where the text holds a zero or the cursor lies behind it.
    pub fn prepare_zle_edit(&self, pane_id: u64, buffer: &str, cursor: usize) -> (r: Option<ZleEdit>)
        ensures
            r is Some <==> ShellIntegration::can_edit(buffer@, cursor as int),
            r matches Some(edit) ==> {
                &&& edit.file@ == self.edit_path(pane_id as int)
                &&& edit.contents@ == edit_contents(buffer@, cursor as int)
                &&& edit.keys@ == edit_keys()
            },
    {
        let chars = text::chars_of(buffer);
        let zero: usize = text::find_char(&chars, '\0', 0);
        if zero < chars.len() {
            assert(buffer@[zero as int] == '\0');
            return None;
        }
        if cursor > chars.len() {
            return None;
        }
        let mut out: Vec<char> = Vec::new();
        text::push_decimal(&mut out, cursor as u64);
        out.push('\n');
        text::push_text(&mut out, buffer);
        assert(out@ =~= edit_contents(buffer@, cursor as int));
        let keys = text::ascii_bytes("\x1b[99~");
        Some(ZleEdit { file: self.edit_file(pane_id), contents: text::string_of(&out), keys })
    }
}

/// What is written to change the input line.
pub open spec fn edit_contents(buffer: Seq<char>, cursor: int) -> Seq<char> {
    text::decimal(cursor).push('\n') + buffer
}

/// The keys that make the shell take the change.
pub open spec fn edit_keys() -> Seq<u8> {
    text::ascii("\x1b[99~"@)
}

/// What a list of variables says.
pub open spec fn env_view(env: Seq<(String, String)>) -> Seq<(Seq<char>, Seq<char>)> {
    Seq::new(env.len(), |i: int| (env[i].0@, env[i].1@))
}

/// The shell reads back the cursor and the text that were written: the first line is the cursor,
/// the rest is the text.
pub proof fn edits_read_back(buffer: Seq<char>, cursor: int)
    requires
        0 <= cursor <= usize::MAX,
    ensures
        ({
            let halves = text::halves(edit_contents(buffer, cursor), '\n');
            &&& halves is Some
            &&& text::parsed_unsigned((halves->0).0, 10, usize::MAX as int) == Some(cursor)
            &&& (halves->0).1 == buffer
        }),
{
    let head = text::decimal(cursor);
    let all = edit_contents(buffer, cursor);
    text::decimal_reads_back(cursor);
    assert forall|j: int| 0 <= j < head.len() implies #[trigger] all[j] != '\n' by {
        assert(all[j] == head[j]);
        assert(text::digit_value(head[j], 10) >= 0);
    }
    assert(all[head.len() as int] == '\n');
    text::first_is_index_of(all, '\n', head.len() as int);
    assert(all.take(head.len() as int) =~= head);
    assert(all.skip(head.len() as int + 1) =~= buffer);
}

/// The variables that describe the terminal to the programs in it, then those of the shell
/// integration.
pub fn session_env(version: &str, extra: Vec<(String, String)>) -> (r: Vec<(String, String)>)
    ensures
        env_view(r@) == seq![
            ("TERM"@, "xterm-256color"@),
            ("COLORTERM"@, "truecolor"@),
            ("TERM_PROGRAM"@, "termul"@),
            ("TERM_PROGRAM_VERSION"@, version@),
        ] + env_view(extra@),
{
    let mut env: Vec<(String, String)> = Vec::new();
    env.push(("TERM".to_string(), "xterm-256color".to_string()));
    env.push(("COLORTERM".to_string(), "truecolor".to_string()));
    env.push(("TERM_PROGRAM".to_string(), "termul".to_string()));
    env.push(("TERM_PROGRAM_VERSION".to_string(), version.to_string()));
    let ghost more = extra@;
    let mut extra = extra;
    env.append(&mut extra);
    assert(env_view(env@) =~= seq![
        ("TERM"@, "xterm-256color"@),
        ("COLORTERM"@, "truecolor"@),
        ("TERM_PROGRAM"@, "termul"@),
        ("TERM_PROGRAM_VERSION"@, version@),
    ] + env_view(more));
    env
}

/// A shell is told by the last name of its path, whatever the directory.
pub proof fn shells_are_told_by_their_names(dir: Seq<char>, name: Seq<char>)
    requires
        name.len() > 0,
        !name.contains('/'),
        name != "."@,
    ensures
        is_zsh_path(dir + seq!['/'] + name) <==> name == "zsh"@,
        is_zsh_path(name) <==> name == "zsh"@,
{
    text::last_field(dir, '/', name);
    assert(dir.push('/') + name =~= dir + seq!['/'] + name);
    let parts = text::fields(dir, '/').push(name);
    assert(parts.last() == name);
    text::index_of_is_first(name, '/');
    assert(text::index_of(name, '/') == name.len()) by {
        if text::index_of(name, '/') < name.len() {
            assert(name.contains(name[text::index_of(name, '/')]));
        }
    }
    assert(text::fields(name, '/') == seq![name]);
    assert(seq![name].last() == name);
}

/// A name in a directory is the last one of the path, and the directory stands before it, with one
/// slash between the two.
pub proof fn names_are_put_into_directories(dir: Seq<char>, name: Seq<char>)
    requires
        dir.len() > 0,
    ensures
        ({
            let path = path_in(dir, name);
            let n = path.len() - name.len();
            &&& n >= 1
            &&& path.skip(n) == name
            &&& path[n - 1] == '/'
            &&& dir.is_prefix_of(path)
            &&& n <= dir.len() + 1
        }),
{
    let path = path_in(dir, name);
    let n = path.len() - name.len();
    assert(path.skip(n) =~= name);
    assert(path.subrange(0, dir.len() as int) =~= dir);
}

} // verus!
