//! What one assembly run holds: the files, their tokens, the nodes, the
//! constants and the image.

use vstd::prelude::*;
use vstd::hash_map::StringHashMap;
use std::path::PathBuf;
use crate::ast::{Ast, AstInfo, AstInfoView, AstView};
use crate::directive::DirectiveValue;
use crate::parser::{TokenInfo, TokenInfoView};

verus! {

/// `std::path::PathBuf`, a path of the file system. It is carried through
/// and never looked into.
#[verifier::external_type_specification]
#[verifier::external_body]
pub struct ExPathBuf(PathBuf);

/// One source file of the run.
pub struct CodeFile {
    pub path: PathBuf,
    pub includes: Vec<PathBuf>,
    pub data: Vec<u8>,
}

/// The state that the three phases hand on.
pub struct Context {
    pub target: Vec<u8>,
    pub tokens: Vec<TokenInfo>,
    pub asts: Vec<AstInfo>,
    pub references: StringHashMap<Vec<DirectiveValue>>,
    pub files: Vec<PathBuf>,
    pub work_directory: PathBuf,
    pub silent: bool,
    pub code_files: Vec<CodeFile>,
}

/// `Clone::clone` of `PathBuf`: the copy is the path itself.
pub assume_specification[ <PathBuf as Clone>::clone ](path: &PathBuf) -> (result: PathBuf)
    ensures
        result == *path,
;

/// What `Path::parent` gives for a path: the path without its last
/// component, if it has one.
pub uninterp spec fn path_parent(path: PathBuf) -> Option<PathBuf>;

/// What `Path::join` gives for a directory and a path: the path taken
/// relative to the directory.
pub uninterp spec fn path_joined(directory: PathBuf, file: PathBuf) -> PathBuf;

/// What `PathBuf::from` gives for a text: the path that the text spells.
pub uninterp spec fn path_of_text(text: Seq<char>) -> PathBuf;

/// `Path::parent`: the result is what the path's parent is called here,
/// `path_parent` of the path; nothing more is said of it.
#[verifier::external_body]
fn parent_of(path: &PathBuf) -> (parent: Option<PathBuf>)
    ensures
        parent == path_parent(*path),
{
    match path.parent() {
        Some(directory) => Some(directory.to_path_buf()),
        None => None,
    }
}

/// `Path::join`: the result is what the join is called here, `path_joined`
/// of the directory and the file; nothing more is said of it.
#[verifier::external_body]
fn join_paths(directory: &PathBuf, file: &PathBuf) -> (joined: PathBuf)
    ensures
        joined == path_joined(*directory, *file),
{
    directory.join(file)
}

/// `PathBuf::from` on a text: the result is what the text's path is called
/// here, `path_of_text` of the text; nothing more is said of it.
#[verifier::external_body]
pub(crate) fn path_from_text(text: &str) -> (path: PathBuf)
    ensures
        path == path_of_text(text@),
{
    PathBuf::from(text)
}

/// The path under which a file stands that the file `base_file_id` names as
/// `file`: `file` joined to the directory of that file, where there is such
/// a file among `files` and it has a directory; else joined to the working
/// directory.
pub open spec fn resolved_path(
    files: Seq<PathBuf>,
    work_directory: PathBuf,
    base_file_id: int,
    file: PathBuf,
) -> PathBuf {
    let parent = if 0 <= base_file_id < files.len() {
        path_parent(files[base_file_id])
    } else {
        None
    };
    match parent {
        Some(directory) => path_joined(directory, file),
        None => path_joined(work_directory, file),
    }
}

impl Context {
    /// Whether every file has its record.
    pub open spec fn wf(&self) -> bool {
        self.files@.len() == self.code_files@.len()
    }

    /// An empty context that resolves relative paths against `work_directory`
    /// where no including file decides.
    pub fn new(work_directory: PathBuf) -> (context: Self)
        ensures
            context.work_directory == work_directory,
            context.target@.len() == 0,
            context.tokens@.len() == 0,
            context.asts@.len() == 0,
            context.references@ == Map::<Seq<char>, Vec<DirectiveValue>>::empty(),
            context.files@.len() == 0,
            context.code_files@.len() == 0,
            !context.silent,
            context.wf(),
    {
        Self {
            work_directory,
            target: Vec::new(),
            tokens: Vec::new(),
            asts: Vec::new(),
            references: StringHashMap::new(),
            files: Vec::new(),
            silent: false,
            code_files: Vec::new(),
        }
    }

    /// Appends a node, located where the token at `token_index` stands.
    pub fn add_ast(&mut self, token_index: usize, ast: Ast)
        requires
            token_index < old(self).tokens@.len(),
        ensures
            final(self).asts.deep_view() == old(self).asts.deep_view().push(
                located(old(self).tokens.deep_view()[token_index as int], ast@),
            ),
            final(self).target == old(self).target,
            final(self).tokens == old(self).tokens,
            final(self).references == old(self).references,
            final(self).files == old(self).files,
            final(self).work_directory == old(self).work_directory,
            final(self).silent == old(self).silent,
            final(self).code_files == old(self).code_files,
    {
        let token_info = &self.tokens[token_index];
        let info = AstInfo {
            line: token_info.line,
            column: token_info.column,
            end: token_info.end,
            ast,
        };
        self.asts.push(info);
        assert(self.asts.deep_view() =~= old(self).asts.deep_view().push(
            located(old(self).tokens.deep_view()[token_index as int], ast@),
        ));
    }

    /// Records one more file, whose record starts empty.
    pub fn register_file(&mut self, path: PathBuf)
        ensures
            final(self).files@ == old(self).files@.push(path),
            final(self).code_files@.len() == old(self).code_files@.len() + 1,
            final(self).code_files@.drop_last() == old(self).code_files@,
            final(self).code_files@.last().path == path,
            final(self).code_files@.last().includes@.len() == 0,
            final(self).code_files@.last().data@.len() == 0,
            final(self).target == old(self).target,
            final(self).tokens == old(self).tokens,
            final(self).asts == old(self).asts,
            final(self).references == old(self).references,
            final(self).work_directory == old(self).work_directory,
            final(self).silent == old(self).silent,
    {
        self.files.push(path.clone());
        self.code_files.push(CodeFile { path, includes: Vec::new(), data: Vec::new() });
        assert(self.code_files@.drop_last() =~= old(self).code_files@);
    }

    /// Records the file `file`, named relative to the directory of the file
    /// `base_file_id`, or to the working directory where there is no such
    /// file or it has no directory. Returns the path under which it stands.
    pub fn add_file(&mut self, base_file_id: usize, file: PathBuf) -> (path: PathBuf)
        ensures
            path == resolved_path(old(self).files@, old(self).work_directory, base_file_id as int, file),
            final(self).files@ == old(self).files@.push(path),
            final(self).code_files@.len() == old(self).code_files@.len() + 1,
            final(self).code_files@.drop_last() == old(self).code_files@,
            final(self).code_files@.last().path == path,
            final(self).code_files@.last().includes@.len() == 0,
            final(self).code_files@.last().data@.len() == 0,
            final(self).target == old(self).target,
            final(self).tokens == old(self).tokens,
            final(self).asts == old(self).asts,
            final(self).references == old(self).references,
            final(self).work_directory == old(self).work_directory,
            final(self).silent == old(self).silent,
    {
        let parent = if base_file_id < self.files.len() {
            parent_of(&self.files[base_file_id])
        } else {
            None
        };
        let full_file_path = match parent {
            Some(directory) => join_paths(&directory, &file),
            None => join_paths(&self.work_directory, &file),
        };
        self.register_file(full_file_path.clone());
        full_file_path
    }

    /// The number of the file recorded last.
    pub fn last_file_id(&self) -> (id: usize)
        requires
            self.files@.len() > 0,
        ensures
            id == self.files@.len() - 1,
    {
        self.files.len() - 1
    }
}

/// The node `ast` located where `token` stands.
pub open spec fn located(token: TokenInfoView, ast: AstView) -> AstInfoView {
    AstInfoView { line: token.line, column: token.column, ast, end: token.end }
}

} // verus!
