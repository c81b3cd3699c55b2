//! The state of the two text inputs: the directory input that suggests the
//! sub-directories matching what was typed, and the pattern input.
use vstd::prelude::*;
use vstd::string::StrSliceExecFns;
use vstd::utf8::encode_utf8;

verus! {

/// The four states of an input box.
#[derive(Debug, PartialEq, Eq, Structural)]
pub enum InputState {
    /// Accepts typing.
    Active,
    /// Passed its own check, waits for the check of its user.
    WaitingVerify,
    /// Passed every check, waits to be read.
    Verified,
    /// Read, no longer accepts typing.
    InActive,
}

impl Default for InputState {
    fn default() -> (r: Self)
        ensures
            r is Active,
    {
        InputState::Active
    }
}

impl InputState {
    pub fn is_active(&self) -> (r: bool)
        ensures
            r == (self is Active),
    {
        match self {
            InputState::Active => true,
            _ => false,
        }
    }

    pub fn is_inactive(&self) -> (r: bool)
        ensures
            r == !(self is Active),
    {
        !self.is_active()
    }

    pub fn is_waiting(&self) -> (r: bool)
        ensures
            r == (self is WaitingVerify),
    {
        match self {
            InputState::WaitingVerify => true,
            _ => false,
        }
    }

    pub fn is_verified(&self) -> (r: bool)
        ensures
            r == (self is Verified),
    {
        match self {
            InputState::Verified => true,
            _ => false,
        }
    }
}

/// A click on the button beside an input: an active input is asked to
/// hand over its text (the result), any other input becomes active again.
pub fn input_button_clicked(state: &mut InputState, clicked: bool) -> (get: bool)
    ensures
        get == (clicked && *old(state) is Active),
        clicked && !(*old(state) is Active) ==> *final(state) is Active,
        !(clicked && !(*old(state) is Active)) ==> *final(state) == *old(state),
{
    let get = clicked && state.is_active();
    if state.is_inactive() && clicked {
        *state = InputState::Active;
    }
    get
}

/// The last index of `c` in `s`.
pub open spec fn rfind(s: Seq<char>, c: char) -> Option<int>
    decreases s.len(),
{
    if s.len() == 0 {
        None
    } else if s.last() == c {
        Some(s.len() - 1)
    } else {
        rfind(s.drop_last(), c)
    }
}

pub open spec fn starts_with(s: Seq<char>, prefix: Seq<char>) -> bool {
    prefix.len() <= s.len() && s.subrange(0, prefix.len() as int) == prefix
}

pub open spec fn dot() -> Seq<char> {
    seq!['.']
}

pub open spec fn dot_dot() -> Seq<char> {
    seq!['.', '.']
}

pub open spec fn current_dir() -> Seq<char> {
    seq!['.', '/']
}

/// What parsing the input `path` gives, from the separator, the previous
/// parent directory and the previous start of the part after it: the new
/// parent directory, the new start, and whether the parent changed.
pub open spec fn parse_result(path: Seq<char>, split: char, prefix: Seq<char>, pos: nat) -> (
    Seq<char>,
    nat,
    bool,
) {
    if path == dot() || path == dot_dot() {
        (path, 0, true)
    } else {
        match rfind(path, split) {
            None => (current_dir(), 0, true),
            Some(p) => if p + 1 == pos && prefix == path.subrange(0, pos as int) {
                (prefix, pos, false)
            } else {
                (path.subrange(0, p + 1), (p + 1) as nat, true)
            },
        }
    }
}

/// The indexes, among the first `n` sub-directories, of those that start
/// with `content`, in order.
pub open spec fn matching_indexes(subdir: Seq<String>, content: Seq<char>, n: nat) -> Seq<usize>
    decreases n,
{
    if n == 0 {
        Seq::empty()
    } else {
        let rest = matching_indexes(subdir, content, (n - 1) as nat);
        if starts_with(subdir[n - 1]@, content) {
            rest.push((n - 1) as usize)
        } else {
            rest
        }
    }
}

/// Whether the input deserves the "no such directory" warning: a complete
/// parent directory that cannot be listed, or a part after it that is
/// neither `.`/`..` nor the start of a sub-directory.
pub open spec fn warning_result(
    path: Seq<char>,
    pos: nat,
    legacy: bool,
    has_hint: bool,
) -> bool {
    let content = path.subrange(pos as int, path.len() as int);
    if path.len() == pos {
        !legacy
    } else if path == dot_dot() || path == dot() || content == dot() || content == dot_dot()
        || has_hint {
        false
    } else {
        true
    }
}

/// Whether two strings hold the same characters.
pub fn str_eq(a: &str, b: &str) -> (r: bool)
    ensures
        r == (a@ == b@),
{
    let n = a.unicode_len();
    let m = b.unicode_len();
    if n != m {
        return false;
    }
    for i in 0..n
        invariant
            n == a@.len(),
            m == b@.len(),
            n == m,
            forall|j: int| 0 <= j < i ==> a@[j] == b@[j],
    {
        if a.get_char(i) != b.get_char(i) {
            return false;
        }
    }
    assert(a@ == b@);
    true
}

/// Whether `s` starts with `prefix`.
pub fn str_starts_with(s: &str, prefix: &str) -> (r: bool)
    ensures
        r == starts_with(s@, prefix@),
{
    let n = prefix.unicode_len();
    let m = s.unicode_len();
    if n > m {
        return false;
    }
    for i in 0..n
        invariant
            n == prefix@.len(),
            m == s@.len(),
            n <= m,
            forall|j: int| 0 <= j < i ==> s@[j] == prefix@[j],
    {
        if s.get_char(i) != prefix.get_char(i) {
            assert(s@.subrange(0, n as int)[i as int] == s@[i as int]);
            return false;
        }
    }
    assert(s@.subrange(0, n as int) == prefix@);
    true
}

/// The last position of `c` in `s`.
pub fn str_rfind(s: &str, c: char) -> (r: Option<usize>)
    ensures
        r matches Some(p) ==> rfind(s@, c) == Some(p as int),
        r is None ==> rfind(s@, c) is None,
{
    let n = s.unicode_len();
    let mut i = n;
    assert(s@.subrange(0, n as int) == s@);
    while i > 0
        invariant
            i <= n,
            n == s@.len(),
            rfind(s@, c) == rfind(s@.subrange(0, i as int), c),
        decreases i,
    {
        let ghost t = s@.subrange(0, i as int);
        assert(t.last() == s@[i - 1]);
        assert(t.drop_last() == s@.subrange(0, i - 1));
        if s.get_char(i - 1) == c {
            return Some(i - 1);
        }
        i = i - 1;
    }
    assert(s@.subrange(0, 0) == Seq::<char>::empty());
    None
}

/// The input of the directory box, split into the parent directory and the
/// part after it, with the sub-directories of the parent that the part may
/// be completed to. Positions count characters (`content_byte_pos` gives
/// the same position in bytes of UTF-8, as `str` indexing counts).
#[derive(Debug, Clone)]
pub struct HintInputState {
    /// The text of the input when it was last read.
    pub path_cache: String,
    /// The indexes (into `subdir`) of the sub-directories that start with
    /// the part after the parent directory.
    pub hint_indexes: Vec<usize>,
    /// The path separator.
    pub split_char: char,
    /// The parent directory.
    pub prefix_path: String,
    /// Whether the parent directory could be listed.
    pub prefix_path_legacy: bool,
    /// Where the part after the parent directory starts, in characters.
    pub content_pos: usize,
    /// Whether the parent directory changed at the last parse.
    pub flag: bool,
    /// The sub-directories of the parent directory.
    pub subdir: Vec<String>,
    /// Whether the input deserves the "no such directory" warning.
    pub warning: bool,
}

impl HintInputState {
    /// `content_pos` counted in bytes: the length of the UTF-8 encoding of
    /// the characters before it.
    pub open spec fn content_byte_pos(&self) -> nat {
        encode_utf8(self.path_cache@.take(self.content_pos as int)).len()
    }

    /// The hint indexes point into `subdir`.
    pub open spec fn hints_valid(&self) -> bool {
        forall|i: int|
            0 <= i < self.hint_indexes@.len() ==> #[trigger] self.hint_indexes@[i]
                < self.subdir@.len()
    }

    /// The part after the parent directory.
    pub open spec fn content_view(&self) -> Seq<char> {
        self.path_cache@.subrange(self.content_pos as int, self.path_cache@.len() as int)
    }

    /// A state for an empty input whose parent is the current directory;
    /// the listing of that directory is read with `load_dir_content`.
    pub fn new() -> (r: Self)
        ensures
            r.path_cache@ == Seq::<char>::empty(),
            r.hint_indexes@ == Seq::<usize>::empty(),
            r.split_char == '/',
            r.prefix_path@ == current_dir(),
            r.content_pos == 0,
            r.flag,
            r.subdir@ == Seq::<String>::empty(),
            !r.warning,
            r.prefix_path_legacy,
    {
        let p = "./";
        proof {
            reveal_strlit("./");
        }
        HintInputState {
            path_cache: String::new(),
            hint_indexes: Vec::new(),
            split_char: '/',
            prefix_path: p.to_string(),
            content_pos: 0,
            flag: true,
            subdir: Vec::new(),
            warning: false,
            prefix_path_legacy: true,
        }
    }

    /// The sub-directories that the input may be completed to.
    pub fn hint_str(&self) -> (r: Vec<&str>)
        requires
            self.hints_valid(),
        ensures
            r@.len() == self.hint_indexes@.len(),
            forall|i: int|
                0 <= i < r@.len() ==> (#[trigger] r@[i])@ == self.subdir@[self.hint_indexes@[i] as int]@,
    {
        let mut vec: Vec<&str> = Vec::new();
        for j in 0..self.hint_indexes.len()
            invariant
                self.hints_valid(),
                vec@.len() == j,
                forall|i: int|
                    0 <= i < j ==> (#[trigger] vec@[i])@
                        == self.subdir@[self.hint_indexes@[i] as int]@,
        {
            let k = self.hint_indexes[j];
            vec.push(self.subdir[k].as_str());
        }
        vec
    }

    /// The `idx`-th suggestion.
    pub fn hint_str_index(&self, idx: usize) -> (r: &str)
        requires
            self.hints_valid(),
            idx < self.hint_indexes@.len(),
        ensures
            r@ == self.subdir@[self.hint_indexes@[idx as int] as int]@,
    {
        self.subdir[self.hint_indexes[idx]].as_str()
    }

    /// The part of the input after the parent directory.
    pub fn content(&self) -> (r: &str)
        requires
            self.content_pos <= self.path_cache@.len(),
        ensures
            r@ == self.content_view(),
    {
        let s = self.path_cache.as_str();
        let n = s.unicode_len();
        s.substring_char(self.content_pos, n)
    }

    /// Takes the current text of the input.
    pub fn path_cache_refresh(&mut self, input: &str)
        ensures
            final(self).path_cache@ == input@,
            final(self).hint_indexes == old(self).hint_indexes,
            final(self).split_char == old(self).split_char,
            final(self).prefix_path == old(self).prefix_path,
            final(self).prefix_path_legacy == old(self).prefix_path_legacy,
            final(self).content_pos == old(self).content_pos,
            final(self).flag == old(self).flag,
            final(self).subdir == old(self).subdir,
            final(self).warning == old(self).warning,
    {
        self.path_cache = input.to_string();
    }
}

impl HintInputState {
    /// Splits the input into the parent directory and the part after it.
    /// The parent is kept, and marked unchanged, when the input still starts
    /// with it and has no separator after it.
    pub fn parse_path(&mut self)
        ensures
            ({
                let r = parse_result(
                    old(self).path_cache@,
                    old(self).split_char,
                    old(self).prefix_path@,
                    old(self).content_pos as nat,
                );
                &&& final(self).prefix_path@ == r.0
                &&& final(self).content_pos == r.1
                &&& final(self).flag == r.2
            }),
            final(self).content_pos <= final(self).path_cache@.len(),
            final(self).path_cache == old(self).path_cache,
            final(self).hint_indexes == old(self).hint_indexes,
            final(self).split_char == old(self).split_char,
            final(self).prefix_path_legacy == old(self).prefix_path_legacy,
            final(self).subdir == old(self).subdir,
            final(self).warning == old(self).warning,
    {
        let d1 = ".";
        let d2 = "..";
        let cur = "./";
        proof {
            reveal_strlit(".");
            reveal_strlit("..");
            reveal_strlit("./");
            assert(d1@ =~= dot());
            assert(d2@ =~= dot_dot());
            assert(cur@ =~= current_dir());
        }
        let path = self.path_cache.as_str();
        let _len = path.unicode_len();
        if str_eq(path, d1) || str_eq(path, d2) {
            self.prefix_path = path.to_string();
            self.content_pos = 0;
            self.flag = true;
            return ;
        }
        match str_rfind(path, self.split_char) {
            None => {
                self.prefix_path = cur.to_string();
                self.content_pos = 0;
                self.flag = true;
            },
            Some(pos) => {
                proof {
                    assert(rfind(path@, self.split_char) == Some(pos as int));
                    lemma_rfind_in(path@, self.split_char);
                }
                if pos + 1 == self.content_pos && str_eq(
                    self.prefix_path.as_str(),
                    path.substring_char(0, self.content_pos),
                ) {
                    self.flag = false;
                } else {
                    self.content_pos = pos + 1;
                    self.flag = true;
                    self.prefix_path = path.substring_char(0, pos + 1).to_string();
                }
            },
        }
    }

    /// Marks the sub-directories that start with the part after the parent
    /// directory, and decides on the warning.
    pub fn get_hint(&mut self)
        requires
            old(self).content_pos <= old(self).path_cache@.len(),
        ensures
            final(self).hint_indexes@ == matching_indexes(
                old(self).subdir@,
                old(self).content_view(),
                old(self).subdir@.len(),
            ),
            final(self).warning == warning_result(
                old(self).path_cache@,
                old(self).content_pos as nat,
                old(self).prefix_path_legacy,
                final(self).hint_indexes@.len() != 0,
            ),
            final(self).hints_valid(),
            final(self).path_cache == old(self).path_cache,
            final(self).split_char == old(self).split_char,
            final(self).prefix_path == old(self).prefix_path,
            final(self).prefix_path_legacy == old(self).prefix_path_legacy,
            final(self).content_pos == old(self).content_pos,
            final(self).flag == old(self).flag,
            final(self).subdir == old(self).subdir,
    {
        let d1 = ".";
        let d2 = "..";
        proof {
            reveal_strlit(".");
            reveal_strlit("..");
            assert(d1@ =~= dot());
            assert(d2@ =~= dot_dot());
        }
        let mut hints: Vec<usize> = Vec::new();
        let content = self.content();
        let n = self.subdir.len();
        for i in 0..n
            invariant
                n == self.subdir@.len(),
                content@ == self.content_view(),
                hints@ == matching_indexes(self.subdir@, content@, i as nat),
                forall|j: int| 0 <= j < hints@.len() ==> #[trigger] hints@[j] < i,
        {
            if str_starts_with(self.subdir[i].as_str(), content) {
                hints.push(i);
            }
        }
        let path = self.path_cache.as_str();
        let warning = if path.unicode_len() == self.content_pos {
            !self.prefix_path_legacy
        } else if str_eq(path, d2) || str_eq(path, d1) || str_eq(content, d1) || str_eq(
            content,
            d2,
        ) || hints.len() != 0 {
            false
        } else {
            true
        };
        self.hint_indexes = hints;
        self.warning = warning;
    }

    /// Takes the listing of the parent directory: its sub-directories, or
    /// `None` when it could not be read.
    pub fn load_dir_content(&mut self, listing: Option<Vec<String>>)
        ensures
            final(self).prefix_path_legacy == listing is Some,
            listing matches Some(v) ==> final(self).subdir@ == v@,
            listing is None ==> final(self).subdir@ == Seq::<String>::empty(),
            final(self).path_cache == old(self).path_cache,
            final(self).hint_indexes == old(self).hint_indexes,
            final(self).split_char == old(self).split_char,
            final(self).prefix_path == old(self).prefix_path,
            final(self).content_pos == old(self).content_pos,
            final(self).flag == old(self).flag,
            final(self).warning == old(self).warning,
    {
        match listing {
            None => {
                self.prefix_path_legacy = false;
                self.subdir = Vec::new();
            },
            Some(v) => {
                self.prefix_path_legacy = true;
                self.subdir = v;
            },
        }
    }

    /// Reads the input anew and refreshes the suggestions. The parent
    /// directory has to be listed again (`load_dir_content`) when the
    /// result says so, before `get_hint`.
    pub fn parse_and_refresh(&mut self, input: &str) -> (relist: bool)
        ensures
            relist == final(self).flag,
            final(self).path_cache@ == input@,
            final(self).content_pos <= final(self).path_cache@.len(),
            ({
                let r = parse_result(
                    input@,
                    old(self).split_char,
                    old(self).prefix_path@,
                    old(self).content_pos as nat,
                );
                &&& final(self).prefix_path@ == r.0
                &&& final(self).content_pos == r.1
                &&& final(self).flag == r.2
            }),
            final(self).split_char == old(self).split_char,
            final(self).subdir == old(self).subdir,
            final(self).prefix_path_legacy == old(self).prefix_path_legacy,
    {
        self.path_cache_refresh(input);
        self.parse_path();
        self.flag
    }

    /// Whether the input names a directory: it carries no warning and the
    /// directory could be read (`readable`, found by the caller).
    pub fn is_directory(&self, readable: bool) -> (r: bool)
        ensures
            r == (!self.warning && readable),
    {
        if self.warning {
            false
        } else {
            readable
        }
    }

    /// What completing the input with the `select`-th suggestion appends:
    /// the rest of that sub-directory's name after the typed part.
    pub fn completion(&self, select: usize) -> (r: &str)
        requires
            self.hints_valid(),
            select < self.hint_indexes@.len(),
            self.content_pos <= self.path_cache@.len(),
            starts_with(
                self.subdir@[self.hint_indexes@[select as int] as int]@,
                self.content_view(),
            ),
        ensures
            self.subdir@[self.hint_indexes@[select as int] as int]@ == self.content_view() + r@,
    {
        let content_len = self.content().unicode_len();
        let hint = self.subdir[self.hint_indexes[select]].as_str();
        let n = hint.unicode_len();
        let r = hint.substring_char(content_len, n);
        assert(hint@ == hint@.subrange(0, content_len as int) + r@);
        r
    }
}

pub(crate) proof fn lemma_rfind_in(s: Seq<char>, c: char)
    ensures
        rfind(s, c) matches Some(p) ==> 0 <= p < s.len() && s[p] == c,
    decreases s.len(),
{
    if s.len() > 0 && s.last() != c {
        lemma_rfind_in(s.drop_last(), c);
    }
}

/// Each suggestion of `matching_indexes` starts with the typed part.
pub proof fn lemma_matching_indexes(subdir: Seq<String>, content: Seq<char>, n: nat)
    requires
        n <= subdir.len(),
        n <= usize::MAX,
    ensures
        forall|j: int|
            0 <= j < matching_indexes(subdir, content, n).len() ==> {
                let k = #[trigger] matching_indexes(subdir, content, n)[j];
                &&& k < n
                &&& starts_with(subdir[k as int]@, content)
            },
    decreases n,
{
    if n > 0 {
        lemma_matching_indexes(subdir, content, (n - 1) as nat);
        let rest = matching_indexes(subdir, content, (n - 1) as nat);
        let all = matching_indexes(subdir, content, n);
        if starts_with(subdir[n - 1]@, content) {
            assert(all == rest.push((n - 1) as usize));
        } else {
            assert(all == rest);
        }
        assert forall|j: int| 0 <= j < all.len() implies ({
            let k = #[trigger] all[j];
            &&& k < n
            &&& starts_with(subdir[k as int]@, content)
        }) by {
            if j < rest.len() {
                assert(all[j] == rest[j]);
            }
        }
    }
}

/// Moves the highlighted suggestion with the arrow keys: down while a
/// later suggestion exists, then up while an earlier one does. Also says
/// which of the two pressed keys were used.
pub fn select_after_keys(select: usize, hint_num: usize, down: bool, up: bool) -> (r: (
    usize,
    bool,
    bool,
))
    ensures
        r.1 == (down && hint_num > 1 && select < hint_num - 1),
        r.2 == (up && hint_num > 1 && (if r.1 {
            select + 1
        } else {
            select as int
        }) > 0),
        r.0 == (if r.1 {
            select + 1
        } else {
            select as int
        }) - (if r.2 {
            1int
        } else {
            0
        }),
{
    let mut sel = select;
    let used_down = down && hint_num > 1 && sel < hint_num - 1;
    if used_down {
        sel = sel + 1;
    }
    let used_up = up && hint_num > 1 && sel > 0;
    if used_up {
        sel = sel - 1;
    }
    (sel, used_down, used_up)
}

/// The decision of the directory box when asked to hand over its input
/// (`get`): an input that names a directory becomes `Verified` and its
/// text replaces what was typed (the result); otherwise the second warning
/// is shown and the input stops accepting typing. An active input first
/// clears the warning choice.
pub fn hint_input_action(
    state: &mut InputState,
    warning_index: &mut usize,
    get: bool,
    is_directory: bool,
) -> (replace: bool)
    ensures
        replace == (*old(state) is Active && get && is_directory),
        *old(state) is Active && get && is_directory ==> *final(state) is Verified
            && *final(warning_index) == 0,
        *old(state) is Active && get && !is_directory ==> *final(state) is InActive
            && *final(warning_index) == 1,
        *old(state) is Active && !get ==> *final(state) == *old(state) && *final(warning_index)
            == 0,
        !(*old(state) is Active) ==> *final(state) == *old(state) && *final(warning_index)
            == *old(warning_index),
{
    if state.is_active() {
        *warning_index = 0;
        if get {
            if is_directory {
                *state = InputState::Verified;
                return true;
            } else {
                *warning_index = 1;
                *state = InputState::InActive;
            }
        }
    }
    false
}

/// The decision of a checked input when asked to hand over its text: an
/// active input whose text passes its check waits for verification.
pub fn warning_input_action(state: &mut InputState, action: bool, pattern_ok: bool)
    ensures
        action && *old(state) is Active && pattern_ok ==> *final(state) is WaitingVerify,
        !(action && *old(state) is Active && pattern_ok) ==> *final(state) == *old(state),
{
    if action {
        let right1 = state.is_active();
        let right2 = pattern_ok;
        if right1 && right2 {
            *state = InputState::WaitingVerify;
        }
    }
}


/// Which warning a checked input shows under its text.
#[derive(Clone, Copy, Debug, PartialEq, Eq, Structural)]
pub enum WarningShown {
    Nothing,
    /// The warning given from outside.
    Outside,
    /// The input's own warning, for a text its check refuses.
    Pattern,
}

/// A warning given from outside is shown first; otherwise the input's own
/// warning is shown when it has a check and the text fails it.
pub fn warning_to_show(has_outside: bool, has_pattern: bool, pattern_ok: bool) -> (r: WarningShown)
    ensures
        has_outside ==> r == WarningShown::Outside,
        !has_outside && has_pattern && !pattern_ok ==> r == WarningShown::Pattern,
        !has_outside && !(has_pattern && !pattern_ok) ==> r == WarningShown::Nothing,
{
    if has_outside {
        WarningShown::Outside
    } else if has_pattern && !pattern_ok {
        WarningShown::Pattern
    } else {
        WarningShown::Nothing
    }
}

} // verus!
