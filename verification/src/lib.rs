pub mod commands;
pub mod compiler;
pub mod date;
pub mod editor;
pub mod error;
pub mod events;
pub mod extractor;
pub mod extractor_laws;
pub mod fragment;
pub mod hashtag;
pub mod hierarchy;
pub mod journal;
pub mod links;
pub mod migration;
pub mod mode;
pub mod numbers;
pub mod offsets;
pub mod outline;
pub mod output;
pub mod parser;
pub mod paths;
pub mod planning;
pub mod query;
pub mod query_laws;
pub mod render;
pub mod render_laws;
pub mod retag;
pub mod services;
pub mod template;
pub mod text;
pub mod time_ref;

pub use compiler::{CompilationDateStyle, CompilationFormat, TagCompiler};
pub use date::Date;
pub use editor::EditorSession;
pub use error::DjourError;
pub use fragment::{ContentPayload, SourceSpan, TaggedContent};
pub use hashtag::{extract_tags, strip_tags};
pub use hierarchy::{SectionStack, TagContext};
pub use journal::Journal;
pub use migration::{
    strip_migration_markers, validate_weekly_no_outside_content, DaySection, NewlineStyle,
    WeeklyExpected, WeeklyParsed,
};
pub use mode::JournalMode;
pub use output::{format_note_list, format_tag_list, NoteEntry};
pub use parser::TagParser;
pub use query::TagQuery;
pub use retag::{retag_markdown, RetagResult};
pub use services::{
    collect_tags_from_text, normalize_tag_argument, sanitize_filename, CompileOptions,
    CompileTagsService, Config, ConfigService, FileSystemRepository, ListNotesService,
    ListTagsService, ModeMigrationOptions, OpenNoteService, RetagFileChange, RetagOptions,
    RetagReport,
};
pub use template::{load_template, Template};
pub use time_ref::{TimeReference, Weekday};
