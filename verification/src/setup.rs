//! Configuration types, default locations, and the decisions of the setup
//! dialogue (which tags a folder name suggests, how answers are read).

use vstd::prelude::*;
use crate::text::{chars_of, contains_chars, has_substring, str_lowercase, to_lowercase, trim,
    trim_str, str_eq};
use crate::tag_set::{views, clone_strings};
use crate::validation::{validate_tags, tags_valid};

verus! {

/// A rule that maps folders matching a glob pattern to tags.
pub struct FolderRule {
    pub pattern: String,
    pub tags: Vec<String>,
    pub inherit: bool,
}

/// The folder-tag part of the configuration.
pub struct FolderTagsConfig {
    pub enabled: bool,
    pub managed_tags: Vec<String>,
    pub sync_flags: bool,
    pub rules: Vec<FolderRule>,
}

/// The whole configuration. `config_file` and `index_dir` are set at run
/// time and are not part of the saved file.
pub struct HamsterConfig {
    pub name: String,
    pub primary_email: String,
    pub maildir: String,
    pub folder_tags: FolderTagsConfig,
    pub config_file: String,
    pub index_dir: String,
}

impl FolderRule {
    pub fn clone_rule(&self) -> (r: FolderRule)
        ensures
            r.pattern@ == self.pattern@,
            views(r.tags@) == views(self.tags@),
            r.inherit == self.inherit,
    {
        FolderRule { pattern: self.pattern.clone(), tags: clone_strings(&self.tags), inherit: self.inherit }
    }
}

impl Default for FolderTagsConfig {
    fn default() -> (r: FolderTagsConfig)
        ensures
            !r.enabled,
            r.managed_tags@.len() == 0,
            !r.sync_flags,
            r.rules@.len() == 0,
    {
        FolderTagsConfig { enabled: false, managed_tags: Vec::new(), sync_flags: false, rules: Vec::new() }
    }
}

/// `PathBuf::join` of a relative name onto `base`: the name follows a
/// separator, which is added unless `base` is empty or already ends in one.
pub open spec fn path_join(base: Seq<char>, name: Seq<char>) -> Seq<char> {
    if base.len() == 0 {
        name
    } else if base.last() == '/' {
        base + name
    } else {
        base + seq!['/'] + name
    }
}

pub fn join_path(base: &str, name: &str) -> (r: String)
    ensures
        r@ == path_join(base@, name@),
{
    let b = chars_of(base);
    let mut r = String::from_str(base);
    if b.len() == 0 {
        return String::from_str(name);
    }
    if b[b.len() - 1] != '/' {
        crate::text::push_char(&mut r, '/');
    }
    r.append(name);
    r
}

/// The home directory of the user running the program, from the
/// `directories` crate (`BaseDirs::new()` and `home_dir()`); `None` when
/// `BaseDirs::new()` finds none. Nothing more is claimed of the result,
/// which comes from the environment.
#[verifier::external_body]
fn home_dir() -> (r: Option<String>) {
    directories::BaseDirs::new().map(|b| b.home_dir().to_string_lossy().into_owned())
}

/// The configuration file and index directory under a home directory.
pub fn paths_under(home: &str) -> (r: (String, String))
    ensures
        r.0@ == path_join(home@, ".hamster.toml"@),
        r.1@ == path_join(home@, ".hamster_index"@),
{
    (join_path(home, ".hamster.toml"), join_path(home, ".hamster_index"))
}

impl HamsterConfig {
    /// Minimal config with explicit paths.
    pub fn with_paths(name: &str, email: &str, maildir: &str, config_file: String, index_dir:
        String) -> (r: HamsterConfig)
        ensures
            r.name@ == name@,
            r.primary_email@ == email@,
            r.maildir@ == maildir@,
            !r.folder_tags.enabled,
            !r.folder_tags.sync_flags,
            r.folder_tags.rules@.len() == 0,
            r.folder_tags.managed_tags@.len() == 0,
            r.config_file == config_file,
            r.index_dir == index_dir,
    {
        HamsterConfig {
            name: String::from_str(name),
            primary_email: String::from_str(email),
            maildir: String::from_str(maildir),
            folder_tags: FolderTagsConfig::default(),
            config_file,
            index_dir,
        }
    }

    /// Default paths: `.hamster.toml` and `.hamster_index` in the home
    /// directory; `None` when there is no home directory.
    pub fn default_paths() -> (r: Option<(String, String)>)
        ensures
            match r {
                Some(p) => exists|home: Seq<char>|
                    p.0@ == path_join(home, ".hamster.toml"@) && p.1@ == path_join(home, ".hamster_index"@),
                None => true,
            },
    {
        match home_dir() {
            Some(home) => Some(paths_under(home.as_str())),
            None => None,
        }
    }
}

/// The default configuration: a placeholder identity, `./mail` as the
/// Maildir, folder tags off, and the paths in the home directory (or, with
/// no home directory, `.hamster.toml` and `.hamster_index` where the
/// program runs).
impl Default for HamsterConfig {
    fn default() -> (r: HamsterConfig)
        ensures
            r.name@ == "Hamster User"@,
            r.primary_email@ == "hamster@example.com"@,
            r.maildir@ == "./mail"@,
            !r.folder_tags.enabled,
            !r.folder_tags.sync_flags,
            r.folder_tags.managed_tags@.len() == 0,
            r.folder_tags.rules@.len() == 0,
            exists|home: Seq<char>|
                r.config_file@ == path_join(home, ".hamster.toml"@) && r.index_dir@ == path_join(
                    home,
                    ".hamster_index"@,
                ),
    {
        let (config_file, index_dir) = match HamsterConfig::default_paths() {
            Some(p) => p,
            None => paths_under(""),
        };
        HamsterConfig {
            name: String::from_str("Hamster User"),
            primary_email: String::from_str("hamster@example.com"),
            maildir: String::from_str("./mail"),
            folder_tags: FolderTagsConfig::default(),
            config_file,
            index_dir,
        }
    }
}

// ── Folder-name heuristics ──────────────────────────────────────────────────

pub open spec fn tag_if(cond: bool, tag: Seq<char>) -> Seq<Seq<char>> {
    if cond {
        seq![tag]
    } else {
        Seq::empty()
    }
}

/// The tags a (lowercased) folder name suggests, in ascending order.
pub open spec fn keyword_tags(lower: Seq<char>) -> Seq<Seq<char>> {
    tag_if(has_substring(lower, "archive"@), "archive"@) + tag_if(
        has_substring(lower, "trash"@) || has_substring(lower, "deleted"@) || has_substring(
            lower,
            "bin"@,
        ),
        "deleted"@,
    ) + tag_if(has_substring(lower, "draft"@), "draft"@) + tag_if(
        has_substring(lower, "inbox"@),
        "inbox"@,
    ) + tag_if(has_substring(lower, "sent"@), "sent"@) + tag_if(
        has_substring(lower, "spam"@) || has_substring(lower, "junk"@),
        "spam"@,
    )
}

fn has_word(lower: &Vec<char>, word: &str) -> (r: bool)
    ensures
        r == has_substring(lower@, word@),
{
    let w = chars_of(word);
    contains_chars(lower, &w)
}

fn push_if(tags: &mut Vec<String>, cond: bool, tag: &str)
    ensures
        views(final(tags)@) == views(old(tags)@) + tag_if(cond, tag@),
{
    if cond {
        tags.push(String::from_str(tag));
        assert(views(tags@) =~= views(old(tags)@) + tag_if(cond, tag@));
    } else {
        assert(views(tags@) =~= views(old(tags)@) + tag_if(cond, tag@));
    }
}

/// The six tags a folder name can suggest, in ascending order.
pub open spec fn keyword_candidates() -> Seq<Seq<char>> {
    seq!["archive"@, "deleted"@, "draft"@, "inbox"@, "sent"@, "spam"@]
}

/// A list whose neighbours are in ascending order is in ascending order.
proof fn lemma_adjacent_sorted(c: Seq<Seq<char>>)
    requires
        forall|i: int| 0 <= i < c.len() - 1 ==> crate::text::seq_lt(#[trigger] c[i], c[i + 1]),
    ensures
        crate::tag_set::sorted_strict(c),
    decreases c.len(),
{
    if c.len() > 1 {
        let init = c.drop_last();
        assert forall|i: int| 0 <= i < init.len() - 1 implies crate::text::seq_lt(#[trigger] init[i], init[i + 1]) by {
            assert(init[i] == c[i] && init[i + 1] == c[i + 1]);
        }
        lemma_adjacent_sorted(init);
        assert forall|i: int, j: int| 0 <= i < j < c.len() implies crate::text::seq_lt(#[trigger] c[i], #[trigger] c[j]) by {
            if j < c.len() - 1 {
                assert(init[i] == c[i] && init[j] == c[j]);
            } else if i < c.len() - 2 {
                assert(init[i] == c[i] && init[c.len() - 2] == c[c.len() - 2]);
                crate::text::lemma_seq_lt_transitive(c[i], c[c.len() - 2], c[j]);
            }
        }
    }
}

/// Appending the next candidate, if chosen, keeps a list of earlier
/// candidates ascending.
proof fn lemma_append_candidate(s: Seq<Seq<char>>, c: Seq<Seq<char>>, k: int, chosen: bool)
    requires
        crate::tag_set::sorted_strict(c),
        0 <= k < c.len(),
        crate::tag_set::sorted_strict(s),
        forall|i: int| 0 <= i < s.len() ==> exists|j: int| 0 <= j < k && #[trigger] s[i] == c[j],
    ensures
        crate::tag_set::sorted_strict(s + tag_if(chosen, c[k])),
        forall|i: int|
            0 <= i < (s + tag_if(chosen, c[k])).len() ==> exists|j: int|
                0 <= j <= k && #[trigger] (s + tag_if(chosen, c[k]))[i] == c[j],
{
    let r = s + tag_if(chosen, c[k]);
    assert forall|i: int| 0 <= i < r.len() implies exists|j: int| 0 <= j <= k && #[trigger] r[i] == c[j] by {
        if i < s.len() {
            assert(r[i] == s[i]);
            let j = choose|j: int| 0 <= j < k && s[i] == c[j];
            assert(r[i] == c[j]);
        } else {
            assert(r[i] == c[k]);
        }
    }
    assert forall|i: int, j: int| 0 <= i < j < r.len() implies crate::text::seq_lt(#[trigger] r[i], #[trigger] r[j]) by {
        assert(r[i] == s[i]);
        let a = choose|a: int| 0 <= a < k && s[i] == c[a];
        if j < s.len() {
            assert(r[j] == s[j]);
        } else {
            assert(r[j] == c[k]);
            assert(crate::text::seq_lt(c[a], c[k]));
        }
    }
}

/// The keyword tags come in strictly ascending order, each one of the six
/// candidates; `suggest_tags` and `suggest_tags_for_folder` both return
/// them for the lowercased folder name.
pub proof fn law_suggestions_sorted(lower: Seq<char>)
    ensures
        crate::tag_set::sorted_strict(keyword_tags(lower)),
        forall|i: int| 0 <= i < keyword_tags(lower).len() ==> keyword_candidates().contains(
            #[trigger] keyword_tags(lower)[i],
        ),
{
    reveal_strlit("archive");
    reveal_strlit("deleted");
    reveal_strlit("draft");
    reveal_strlit("inbox");
    reveal_strlit("sent");
    reveal_strlit("spam");
    reveal_with_fuel(crate::text::seq_lt, 3);
    let c = keyword_candidates();
    assert(crate::text::seq_lt(c[0], c[1]));
    assert(crate::text::seq_lt(c[1], c[2]));
    assert(crate::text::seq_lt(c[2], c[3]));
    assert(crate::text::seq_lt(c[3], c[4]));
    assert(crate::text::seq_lt(c[4], c[5]));
    lemma_adjacent_sorted(c);
    let b0 = has_substring(lower, "archive"@);
    let b1 = has_substring(lower, "trash"@) || has_substring(lower, "deleted"@) || has_substring(lower, "bin"@);
    let b2 = has_substring(lower, "draft"@);
    let b3 = has_substring(lower, "inbox"@);
    let b4 = has_substring(lower, "sent"@);
    let b5 = has_substring(lower, "spam"@) || has_substring(lower, "junk"@);
    let s0 = Seq::<Seq<char>>::empty();
    lemma_append_candidate(s0, c, 0, b0);
    let s1 = s0 + tag_if(b0, c[0]);
    lemma_append_candidate(s1, c, 1, b1);
    let s2 = s1 + tag_if(b1, c[1]);
    lemma_append_candidate(s2, c, 2, b2);
    let s3 = s2 + tag_if(b2, c[2]);
    lemma_append_candidate(s3, c, 3, b3);
    let s4 = s3 + tag_if(b3, c[3]);
    lemma_append_candidate(s4, c, 4, b4);
    let s5 = s4 + tag_if(b4, c[4]);
    lemma_append_candidate(s5, c, 5, b5);
    let s6 = s5 + tag_if(b5, c[5]);
    assert(s1 =~= tag_if(b0, c[0]));
    assert(s6 == keyword_tags(lower));
    assert forall|i: int| 0 <= i < s6.len() implies c.contains(#[trigger] s6[i]) by {
        let j = choose|j: int| 0 <= j <= 5 && s6[i] == c[j];
    }
}

/// Suggest tags based on folder name (sorted, without repetitions).
pub fn suggest_tags(folder: &str) -> (r: Vec<String>)
    ensures
        views(r@) == keyword_tags(str_lowercase(folder@)),
{
    let lower_s = to_lowercase(folder);
    let lower = chars_of(lower_s.as_str());
    let mut tags: Vec<String> = Vec::new();
    assert(views(tags@) =~= Seq::<Seq<char>>::empty());
    let c = has_word(&lower, "archive");
    push_if(&mut tags, c, "archive");
    let c = has_word(&lower, "trash") || has_word(&lower, "deleted") || has_word(&lower, "bin");
    push_if(&mut tags, c, "deleted");
    let c = has_word(&lower, "draft");
    push_if(&mut tags, c, "draft");
    let c = has_word(&lower, "inbox");
    push_if(&mut tags, c, "inbox");
    let c = has_word(&lower, "sent");
    push_if(&mut tags, c, "sent");
    let c = has_word(&lower, "spam") || has_word(&lower, "junk");
    push_if(&mut tags, c, "spam");
    assert(views(tags@) =~= keyword_tags(str_lowercase(folder@)));
    tags
}

/// The folders that the setup dialogue proposes a rule for: those whose name
/// suggests at least one tag, all of them valid.
pub open spec fn suggested_rule_folders(folders: Seq<Seq<char>>) -> Seq<Seq<char>> {
    folders.filter(suggests_rule())
}

pub open spec fn suggests_rule() -> spec_fn(Seq<char>) -> bool {
    |f: Seq<char>| keyword_tags(str_lowercase(f)).len() > 0 && tags_valid(keyword_tags(str_lowercase(f)))
}

pub fn suggest_rules(folders: &Vec<String>) -> (r: Vec<FolderRule>)
    ensures
        r@.len() == suggested_rule_folders(views(folders@)).len(),
        forall|i: int|
            0 <= i < r@.len() ==> {
                &&& (#[trigger] r@[i]).pattern@ == suggested_rule_folders(views(folders@))[i]
                &&& views(r@[i].tags@) == keyword_tags(str_lowercase(r@[i].pattern@))
                &&& !r@[i].inherit
            },
{
    broadcast use vstd::seq_lib::group_seq_properties;

    let ghost pred = suggests_rule();
    let mut rules: Vec<FolderRule> = Vec::new();
    let mut i: usize = 0;
    while i < folders.len()
        invariant
            i <= folders.len(),
            pred == suggests_rule(),
            rules@.len() == views(folders@).take(i as int).filter(pred).len(),
            forall|k: int|
                0 <= k < rules@.len() ==> {
                    &&& (#[trigger] rules@[k]).pattern@ == views(folders@).take(i as int).filter(
                        pred,
                    )[k]
                    &&& views(rules@[k].tags@) == keyword_tags(str_lowercase(rules@[k].pattern@))
                    &&& !rules@[k].inherit
                },
        decreases folders.len() - i,
    {
        let folder = &folders[i];
        let tags = suggest_tags(folder.as_str());
        proof {
            views(folders@).lemma_take_succ_push(i as int);
            views(folders@).take(i as int).lemma_filter_push(folder@, pred);
        }
        let valid = validate_tags(&tags);
        if valid.is_ok() && tags.len() > 0 {
            rules.push(FolderRule { pattern: folder.clone(), tags, inherit: false });
        }
        i += 1;
    }
    assert(views(folders@).take(folders.len() as int) =~= views(folders@));
    rules
}

// ── Reading answers ──────────────────────────────────────────────────────────

/// A yes/no answer: empty, `y` or `yes`, in any case, counts as yes.
pub open spec fn affirmative(input: Seq<char>) -> bool {
    let l = str_lowercase(trim(input));
    l.len() == 0 || l == "y"@ || l == "yes"@
}

pub fn is_affirmative(input: &str) -> (r: bool)
    ensures
        r == affirmative(input@),
{
    let t = trim_str(input);
    let l = to_lowercase(t.as_str());
    let lv = chars_of(l.as_str());
    lv.len() == 0 || str_eq(l.as_str(), "y") || str_eq(l.as_str(), "yes")
}

/// The answer to a prompt with a default: the trimmed input, or the default
/// when nothing was typed.
pub fn input_or_default(input: &str, default: &str) -> (r: String)
    ensures
        r@ == (if trim(input@).len() == 0 {
            default@
        } else {
            trim(input@)
        }),
{
    let t = trim_str(input);
    let tv = chars_of(t.as_str());
    if tv.len() == 0 {
        String::from_str(default)
    } else {
        t
    }
}

/// What the settings menu does for an answer.
pub enum TweakAction {
    EditIdentity,
    EditMaildir,
    FolderTagsToggled,
    FlagSyncToggled,
    RescanFolders,
    Reindex,
    SaveAndQuit,
    Unrecognised,
}

/// The (trimmed) answer is the single digit `d`.
pub open spec fn is_choice(c: Seq<char>, d: char) -> bool {
    c.len() == 1 && c[0] == d
}

/// Handle one answer of the settings menu: the toggles are applied here;
/// the other actions are returned for the caller to carry out.
pub fn apply_tweak_choice(config: &mut HamsterConfig, choice: &str) -> (r: TweakAction)
    ensures
        ({
            let c = trim(choice@);
            &&& is_choice(c, '3') ==> r is FolderTagsToggled && final(config).folder_tags.enabled
                == !old(config).folder_tags.enabled
            &&& !is_choice(c, '3') ==> final(config).folder_tags.enabled
                == old(config).folder_tags.enabled
            &&& is_choice(c, '4') ==> r is FlagSyncToggled && final(config).folder_tags.sync_flags
                == !old(config).folder_tags.sync_flags
            &&& !is_choice(c, '4') ==> final(config).folder_tags.sync_flags
                == old(config).folder_tags.sync_flags
            &&& is_choice(c, '1') ==> r is EditIdentity
            &&& is_choice(c, '2') ==> r is EditMaildir
            &&& is_choice(c, '5') ==> r is RescanFolders
            &&& is_choice(c, '6') ==> r is Reindex
            &&& is_choice(c, '7') ==> r is SaveAndQuit
            &&& !(c.len() == 1 && '1' <= c[0] <= '7') ==> r is Unrecognised
        }),
        final(config).name == old(config).name,
        final(config).primary_email == old(config).primary_email,
        final(config).maildir == old(config).maildir,
        final(config).folder_tags.rules == old(config).folder_tags.rules,
        final(config).folder_tags.managed_tags == old(config).folder_tags.managed_tags,
        final(config).config_file == old(config).config_file,
        final(config).index_dir == old(config).index_dir,
{
    let t = trim_str(choice);
    let cv = chars_of(t.as_str());
    if cv.len() != 1 {
        return TweakAction::Unrecognised;
    }
    let d = cv[0];
    if d == '1' {
        TweakAction::EditIdentity
    } else if d == '2' {
        TweakAction::EditMaildir
    } else if d == '3' {
        config.folder_tags.enabled = !config.folder_tags.enabled;
        TweakAction::FolderTagsToggled
    } else if d == '4' {
        config.folder_tags.sync_flags = !config.folder_tags.sync_flags;
        TweakAction::FlagSyncToggled
    } else if d == '5' {
        TweakAction::RescanFolders
    } else if d == '6' {
        TweakAction::Reindex
    } else if d == '7' {
        TweakAction::SaveAndQuit
    } else {
        TweakAction::Unrecognised
    }
}

} // verus!
