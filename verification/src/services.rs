//! The decisions of the journal's commands, apart from the reading and
//! writing of files that carries them out.

use vstd::prelude::*;
use crate::compiler::{lex_before, text_before, CompilationFormat};
use crate::date::Date;
use crate::error::DjourError;
use crate::hashtag::{extract_tags, tag_names};
use crate::mode::JournalMode;
use crate::query::{all_tag_chars, only_tag_chars, without_hash};
use crate::text::{
    ascii_lower, chars_of, extend_str, lowercase, lowered, same, slice, str_is, str_views,
    string_of, to_ascii_lower, trim_by, trimmed, unicode_lower, CharClass,
};

verus! {

// ---------------------------------------------------------------------------
// The repository and the services that work on it
// ---------------------------------------------------------------------------

/// A journal in the file system, known by its root directory.
#[derive(Debug, Clone)]
pub struct FileSystemRepository {
    pub root: String,
}

impl FileSystemRepository {
    /// The repository of the journal under the given root.
    pub fn new(root: String) -> (repository: FileSystemRepository)
        ensures
            repository.root@ == root@,
    {
        FileSystemRepository { root }
    }

    /// The root directory.
    pub fn root(&self) -> (root: &str)
        ensures
            root@ == self.root@,
    {
        self.root.as_str()
    }
}

/// Compiles tagged content.
pub struct CompileTagsService {
    pub repository: FileSystemRepository,
}

impl CompileTagsService {
    /// The service over a repository.
    pub fn new(repository: FileSystemRepository) -> (service: CompileTagsService)
        ensures
            service.repository.root@ == repository.root@,
    {
        CompileTagsService { repository }
    }
}

/// Lists notes.
pub struct ListNotesService {
    pub repository: FileSystemRepository,
}

impl ListNotesService {
    /// The service over a repository.
    pub fn new(repository: FileSystemRepository) -> (service: ListNotesService)
        ensures
            service.repository.root@ == repository.root@,
    {
        ListNotesService { repository }
    }
}

/// Lists tags.
pub struct ListTagsService {
    pub repository: FileSystemRepository,
}

impl ListTagsService {
    /// The service over a repository.
    pub fn new(repository: FileSystemRepository) -> (service: ListTagsService)
        ensures
            service.repository.root@ == repository.root@,
    {
        ListTagsService { repository }
    }
}

/// Opens notes.
pub struct OpenNoteService {
    pub repository: FileSystemRepository,
}

impl OpenNoteService {
    /// The service over a repository.
    pub fn new(repository: FileSystemRepository) -> (service: OpenNoteService)
        ensures
            service.repository.root@ == repository.root@,
    {
        OpenNoteService { repository }
    }
}

/// What a migration between modes is asked to do.
#[derive(Debug, Clone)]
pub struct ModeMigrationOptions {
    pub to_mode: JournalMode,
    pub from_mode: Option<JournalMode>,
    pub dry_run: bool,
    pub yes: bool,
    pub archive_dir: Option<String>,
}

/// What a compilation is asked to do.
#[derive(Debug, Clone)]
pub struct CompileOptions {
    /// The query.
    pub query: String,
    /// The output file; the default where none is given.
    pub output: Option<String>,
    /// The first day to take, if the days are limited.
    pub from: Option<Date>,
    /// The last day to take, if the days are limited.
    pub to: Option<Date>,
    pub format: CompilationFormat,
    pub include_context: bool,
}

// ---------------------------------------------------------------------------
// Configuration
// ---------------------------------------------------------------------------

/// The configuration of a journal.
#[derive(Debug, Clone)]
pub struct Config {
    pub mode: JournalMode,
    pub editor: String,
    /// When the journal was created, as RFC 3339 text.
    pub created: String,
}

/// Reads and changes the configuration.
pub struct ConfigService {
    pub repository: FileSystemRepository,
}

/// The value of a key of the configuration, or what is said of an unknown
/// key.
pub open spec fn config_value(config: &Config, key: Seq<char>) -> Result<Seq<char>, Seq<char>> {
    if key == "mode"@ {
        Ok(config.mode.name())
    } else if key == "editor"@ {
        Ok(config.editor@)
    } else if key == "created"@ {
        Ok(config.created@)
    } else {
        Err("Unknown config key: '"@ + key + "'. Valid keys are: mode, editor, created"@)
    }
}

/// Why a key of the configuration cannot be set to a value, if it cannot.
pub open spec fn set_refused(key: Seq<char>, value: Seq<char>) -> Option<Seq<char>> {
    if key == "mode"@ {
        if JournalMode::named(unicode_lower(value)) is Some {
            None
        } else {
            Some(JournalMode::invalid(value))
        }
    } else if key == "editor"@ {
        None
    } else if key == "created"@ {
        Some("Cannot modify 'created' field (read-only)"@)
    } else {
        Some("Unknown config key: '"@ + key + "'. Valid keys are: mode, editor"@)
    }
}

/// The mode of the configuration after a key was set.
pub open spec fn mode_after(mode: JournalMode, key: Seq<char>, value: Seq<char>) -> JournalMode {
    if key == "mode"@ {
        match JournalMode::named(unicode_lower(value)) {
            Some(m) => m,
            None => mode,
        }
    } else {
        mode
    }
}

impl ConfigService {
    /// The service over a repository.
    pub fn new(repository: FileSystemRepository) -> (service: ConfigService)
        ensures
            service.repository.root@ == repository.root@,
    {
        ConfigService { repository }
    }

    /// The value of a key of the configuration.
    pub fn get(&self, config: &Config, key: &str) -> (r: Result<String, DjourError>)
        ensures
            match config_value(config, key@) {
                Ok(v) => r matches Ok(s) && s@ == v,
                Err(m) => r matches Err(DjourError::Config(msg)) && msg@ == m,
            },
    {
        if str_is(key, "mode") {
            Ok(string_of(&chars_of(config.mode.as_str())))
        } else if str_is(key, "editor") {
            Ok(config.editor.clone())
        } else if str_is(key, "created") {
            Ok(config.created.clone())
        } else {
            let mut msg = chars_of("Unknown config key: '");
            extend_str(&mut msg, key);
            extend_str(&mut msg, "'. Valid keys are: mode, editor, created");
            Err(DjourError::Config(string_of(&msg)))
        }
    }

    /// Sets a key of the configuration. The mode must name a mode, the
    /// editor may be anything, the time of creation cannot be set.
    pub fn set(&self, config: &mut Config, key: &str, value: &str) -> (r: Result<(), DjourError>)
        ensures
            match set_refused(key@, value@) {
                None => r is Ok,
                Some(m) => r matches Err(DjourError::Config(msg)) && msg@ == m,
            },
            final(config).mode == mode_after(old(config).mode, key@, value@),
            final(config).editor@ == (if key@ == "editor"@ {
                value@
            } else {
                old(config).editor@
            }),
            final(config).created == old(config).created,
    {
        proof {
            reveal_strlit("mode");
            reveal_strlit("editor");
            reveal_strlit("created");
            assert("mode"@.len() == 4 && "editor"@.len() == 6 && "created"@.len() == 7);
        }
        if str_is(key, "mode") {
            match JournalMode::parse(value) {
                Ok(mode) => {
                    config.mode = mode;
                    Ok(())
                },
                Err(msg) => Err(DjourError::Config(msg)),
            }
        } else if str_is(key, "editor") {
            config.editor = string_of(&chars_of(value));
            Ok(())
        } else if str_is(key, "created") {
            Err(DjourError::config("Cannot modify 'created' field (read-only)"))
        } else {
            let mut msg = chars_of("Unknown config key: '");
            extend_str(&mut msg, key);
            extend_str(&mut msg, "'. Valid keys are: mode, editor");
            Err(DjourError::Config(string_of(&msg)))
        }
    }
}

// ---------------------------------------------------------------------------
// Compiling
// ---------------------------------------------------------------------------

/// The character that stands for `c` in a file name.
pub open spec fn file_name_char(c: char) -> char {
    if ('a' <= c && c <= 'z') || ('0' <= c && c <= '9') || c == '-' || c == '_' {
        c
    } else if 'A' <= c && c <= 'Z' {
        ascii_lower(c)
    } else if c == ' ' {
        '-'
    } else {
        '_'
    }
}

/// A query as a file name: letters in lower case, digits, `-` and `_` as
/// they are, `-` for a space and `_` for everything else, without `_` at
/// the ends.
pub open spec fn sanitized(query: Seq<char>) -> Seq<char> {
    trimmed(Seq::new(query.len(), |i: int| file_name_char(query[i])), CharClass::Underscore)
}

/// Makes a file name of a query: see [`sanitized`].
pub fn sanitize_filename(query: &str) -> (name: String)
    ensures
        name@ == sanitized(query@),
{
    let q = chars_of(query);
    let mut mapped: Vec<char> = Vec::new();
    let mut i: usize = 0;
    while i < q.len()
        invariant
            i <= q.len(),
            mapped.len() == i,
            forall|j: int| 0 <= j < i ==> mapped@[j] == file_name_char(q@[j]),
        decreases q.len() - i,
    {
        let c = q[i];
        let m = if ('a' <= c && c <= 'z') || ('0' <= c && c <= '9') || c == '-' || c == '_' {
            c
        } else if 'A' <= c && c <= 'Z' {
            to_ascii_lower(c)

        } else if c == ' ' {
            '-'
        } else {
            '_'
        };
        mapped.push(m);
        i += 1;
    }
    assert(mapped@ =~= Seq::new(q@.len(), |i: int| file_name_char(q@[i])));
    string_of(&trim_by(&mapped, CharClass::Underscore))
}

// ---------------------------------------------------------------------------
// Replacing tags
// ---------------------------------------------------------------------------

/// What a replacement of tags is asked to do.
#[derive(Debug, Clone)]
pub struct RetagOptions {
    pub from_tag: String,
    pub to_tag: String,
    pub from: Option<Date>,
    pub to: Option<Date>,
    pub recursive: bool,
    pub dry_run: bool,
}

/// What was replaced in one file.
#[derive(Debug, Clone, PartialEq, Eq)]
pub struct RetagFileChange {
    pub filename: String,
    pub replacements: usize,
}

/// What a replacement of tags did.
#[derive(Debug, Clone, PartialEq, Eq)]
pub struct RetagReport {
    pub scanned_files: usize,
    pub changed_files: usize,
    pub total_replacements: usize,
    pub dry_run: bool,
    pub changes: Vec<RetagFileChange>,
}

/// The tag that an argument names: the argument without the `#` that may
/// stand in front of it, in lower case; or what is said of an argument that
/// names none.
pub open spec fn tag_argument(input: Seq<char>) -> Result<Seq<char>, Seq<char>> {
    let tag = without_hash(input);
    if tag.len() == 0 {
        Err("Invalid tag: "@ + input)
    } else if !all_tag_chars(tag) {
        Err("Invalid tag: "@ + input + ". Allowed characters: letters, numbers, '-', '_'"@)
    } else {
        Ok(lowered(tag))
    }
}

/// Reads a tag given as an argument: see [`tag_argument`].
pub fn normalize_tag_argument(input: &str) -> (r: Result<String, DjourError>)
    ensures
        match tag_argument(input@) {
            Ok(tag) => r matches Ok(s) && s@ == tag,
            Err(m) => r matches Err(DjourError::Config(msg)) && msg@ == m,
        },
{
    let word = chars_of(input);
    let tag = if word.len() > 0 && word[0] == '#' {
        slice(&word, 1, word.len())
    } else {
        slice(&word, 0, word.len())
    };
    assert(tag@ =~= without_hash(input@));
    if tag.len() == 0 {
        let mut msg = chars_of("Invalid tag: ");
        extend_str(&mut msg, input);
        return Err(DjourError::Config(string_of(&msg)));
    }
    if !only_tag_chars(&tag) {
        let mut msg = chars_of("Invalid tag: ");
        extend_str(&mut msg, input);
        extend_str(&mut msg, ". Allowed characters: letters, numbers, '-', '_'");
        return Err(DjourError::Config(string_of(&msg)));
    }
    Ok(string_of(&lowercase(&tag)))
}

// ---------------------------------------------------------------------------
// Listing tags
// ---------------------------------------------------------------------------

/// A list of texts in the order of the dictionary, none twice, with one
/// more text, unless the list holds it.
pub open spec fn with_text(sorted: Seq<Seq<char>>, x: Seq<char>) -> Seq<Seq<char>>
    decreases sorted.len(),
{
    if sorted.len() == 0 {
        seq![x]
    } else if sorted.last() == x {
        sorted
    } else if lex_before(sorted.last(), x) {
        sorted.push(x)
    } else {
        with_text(sorted.drop_last(), x).push(sorted.last())
    }
}

/// A list with more texts: see [`with_text`].
pub open spec fn with_texts(sorted: Seq<Seq<char>>, more: Seq<Seq<char>>) -> Seq<Seq<char>>
    decreases more.len(),
{
    if more.len() == 0 {
        sorted
    } else {
        with_text(with_texts(sorted, more.drop_last()), more.last())
    }
}

/// The index behind a text among the first `n` texts of a list, or that at
/// which the text would go.
pub open spec fn text_index(sorted: Seq<Seq<char>>, x: Seq<char>, n: int) -> int
    decreases n,
{
    if n <= 0 || n > sorted.len() || sorted[n - 1] == x || lex_before(sorted[n - 1], x) {
        n
    } else {
        text_index(sorted, x, n - 1)
    }
}

/// The text stands before index `k` of the list.
pub open spec fn found_at(sorted: Seq<Seq<char>>, x: Seq<char>, k: int) -> bool {
    0 < k <= sorted.len() && sorted[k - 1] == x
}

proof fn lemma_text_index_prefix(sorted: Seq<Seq<char>>, x: Seq<char>, n: int)
    requires
        0 <= n < sorted.len(),
    ensures
        text_index(sorted, x, n) == text_index(sorted.drop_last(), x, n),
        0 <= text_index(sorted, x, n) <= n,
    decreases n,
{
    if n > 0 {
        assert(sorted.drop_last()[n - 1] == sorted[n - 1]);
        if !(sorted[n - 1] == x || lex_before(sorted[n - 1], x)) {
            lemma_text_index_prefix(sorted, x, n - 1);
        }
    }
}

proof fn lemma_with_text_at(sorted: Seq<Seq<char>>, x: Seq<char>)
    ensures
        ({
            let k = text_index(sorted, x, sorted.len() as int);
            &&& 0 <= k <= sorted.len()
            &&& found_at(sorted, x, k) ==> with_text(sorted, x) == sorted
            &&& !found_at(sorted, x, k) ==> with_text(sorted, x) == sorted.insert(k, x)
        }),
    decreases sorted.len(),
{
    let n = sorted.len() as int;
    if n == 0 {
        assert(seq![x] =~= sorted.insert(0, x));
    } else if sorted.last() == x {
    } else if lex_before(sorted.last(), x) {
        assert(sorted.push(x) =~= sorted.insert(n, x));
    } else {
        let init = sorted.drop_last();
        lemma_with_text_at(init, x);
        lemma_text_index_prefix(sorted, x, n - 1);
        let k = text_index(init, x, n - 1);
        if found_at(init, x, k) {
            assert(init[k - 1] == sorted[k - 1]);
            assert(init.push(sorted.last()) =~= sorted);
        } else {
            if 0 < k {
                assert(init[k - 1] == sorted[k - 1]);
            }
            assert(init.insert(k, x).push(sorted.last()) =~= sorted.insert(k, x));
        }
    }
}

/// Adds a text to a list in the order of the dictionary, unless the list
/// holds it.
pub fn insert_text(output: &mut Vec<String>, x: String)
    ensures
        str_views(final(output)@) == with_text(str_views(old(output)@), x@),
{
    let ghost before = str_views(output@);
    let name = chars_of(x.as_str());
    let mut pos: usize = output.len();
    let mut present = false;
    while pos > 0
        invariant_except_break
            pos <= output.len(),
            before == str_views(output@),
            !present,
            name@ == x@,
            text_index(before, x@, before.len() as int) == text_index(before, x@, pos as int),

        ensures
            pos <= output.len(),
            before == str_views(output@),
            pos == text_index(before, x@, before.len() as int),
            present == found_at(before, x@, pos as int),
        decreases pos,
    {
        assert(before[pos - 1] == output@[pos - 1]@);
        let other = chars_of(output[pos - 1].as_str());
        if same(&other, &name) {
            present = true;
            break ;
        }
        if text_before(&other, &name) {
            break ;
        }
        pos -= 1;
    }
    proof {
        lemma_with_text_at(before, x@);
    }
    if !present {
        output.insert(pos, x);
        assert(str_views(output@) =~= before.insert(pos as int, x@));
    }
}

/// Adds the names of the tags of a text to a list that is in the order of
/// the dictionary and holds nothing twice.
pub fn collect_tags_from_text(text: &str, output: &mut Vec<String>)
    ensures
        str_views(final(output)@) == with_texts(str_views(old(output)@), tag_names(text@)),
{
    let tags = extract_tags(text);
    let ghost all = str_views(tags@);
    let mut i: usize = 0;
    assert(all.take(0) =~= Seq::<Seq<char>>::empty());
    while i < tags.len()
        invariant
            i <= tags.len(),
            all == str_views(tags@),
            all == tag_names(text@),
            str_views(output@) == with_texts(str_views(old(output)@), all.take(i as int)),
        decreases tags.len() - i,
    {
        let ghost next = all.take(i + 1);
        assert(next.drop_last() =~= all.take(i as int));
        assert(next.last() == tags@[i as int]@);
        insert_text(output, tags[i].clone());
        i += 1;
    }
    assert(all.take(tags.len() as int) =~= all);
}

/// The names of the tags of the first `n` texts, in the order of the
/// dictionary, none twice.
pub open spec fn tags_of_texts(texts: Seq<Seq<char>>, n: int) -> Seq<Seq<char>>
    decreases n,
{
    if n <= 0 {
        seq![]
    } else {
        with_texts(tags_of_texts(texts, n - 1), tag_names(texts[n - 1]))
    }
}

/// The tags of a journal: the names of the tags of all its notes, in the
/// order of the dictionary, none twice.
pub fn collect_tags(contents: &Vec<String>) -> (tags: Vec<String>)
    ensures
        str_views(tags@) == tags_of_texts(str_views(contents@), contents.len() as int),
{
    let mut tags: Vec<String> = Vec::new();
    let mut i: usize = 0;
    assert(str_views(tags@) =~= Seq::<Seq<char>>::empty());
    while i < contents.len()
        invariant
            i <= contents.len(),
            str_views(tags@) == tags_of_texts(str_views(contents@), i as int),
        decreases contents.len() - i,
    {
        assert(str_views(contents@)[i as int] == contents@[i as int]@);
        collect_tags_from_text(contents[i].as_str(), &mut tags);
        i += 1;
    }
    tags
}

} // verus!
