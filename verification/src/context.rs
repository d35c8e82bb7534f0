//! What the store reads of the application around it, and what it asks of it.

use std::collections::HashMap;

use vstd::prelude::*;

use crate::path::{path_views, ComponentPath, PathView};
use crate::settings::MergedSettings;

verus! {

/// Identifies a worktree.
pub type WorktreeId = u64;

/// Identifies an entry of a worktree.
pub type ProjectEntryId = u64;

/// Identifies a buffer.
pub type BufferId = u64;

/// An event emitted by the store.
#[derive(Debug, Clone, Copy, PartialEq, Eq, Structural)]
pub enum ExternalLibrariesEvent {
    /// The set of surfaced external libraries changed.
    LibrariesChanged,
}

/// How a library came to be surfaced in the panel.
#[derive(Clone, Copy, Debug, PartialEq, Eq, Structural)]
pub enum LibraryOrigin {
    /// Surfaced on demand after the user navigated into it.
    Navigated,
    /// Surfaced by eager enumeration of the project's dependencies.
    Enumerated,
}

/// How the paths of a worktree are written.
#[derive(Clone, Copy, Debug, PartialEq, Eq, Structural)]
pub enum PathStyle {
    Posix,
    Windows,
}

/// The state of the application at the time of a call.
pub struct App {
    /// The settings in force; `None` if there is no settings store.
    pub settings: Option<MergedSettings>,
    /// The absolute paths of the visible worktrees.
    pub visible_worktree_roots: Vec<ComponentPath>,
    /// For each worktree that the worktree store holds, whether it is visible.
    pub worktree_visibility: HashMap<u64, bool>,
    /// The absolute path of each live worktree.
    pub worktree_roots: HashMap<u64, ComponentPath>,
    /// How many dependency providers are registered.
    pub dependency_providers: usize,
}

impl App {
    /// The absolute path of a worktree.
    pub open spec fn root_of(self, worktree: WorktreeId) -> Option<PathView> {
        if self.worktree_roots@.contains_key(worktree) {
            Some(self.worktree_roots@[worktree]@)
        } else {
            None
        }
    }

    /// The absolute paths of the visible worktrees, as a set.
    pub open spec fn visible_roots(self) -> Set<PathView> {
        Set::new(
            |path: PathView|
                exists|i: int|
                    0 <= i < self.visible_worktree_roots@.len() && (
                    #[trigger] self.visible_worktree_roots@[i])@ == path,
        )
    }
}

impl App {
    /// The visible roots are those listed, and finitely many.
    pub proof fn lemma_visible_roots(self)
        ensures
            self.visible_roots() == path_views(self.visible_worktree_roots@).to_set(),
            self.visible_roots().finite(),
    {
        let listed = path_views(self.visible_worktree_roots@);
        let visible = self.visible_roots();
        assert forall|path: PathView| listed.contains(path) == visible.contains(path) by {
            if listed.contains(path) {
                let k = listed.index_of(path);
                assert(self.visible_worktree_roots@[k]@ == path);
            }
            if visible.contains(path) {
                let k = choose|k: int|
                    0 <= k < self.visible_worktree_roots@.len() && (
                    #[trigger] self.visible_worktree_roots@[k])@ == path;
                assert(listed[k] == path);
            }
        }
        assert(visible =~= listed.to_set());
        vstd::seq_lib::seq_to_set_is_finite(listed);
    }
}

/// A file as the buffer that shows it knows it.
#[derive(Debug, PartialEq, Eq)]
pub struct FileState {
    /// The worktree that the file belongs to.
    pub worktree_id: WorktreeId,
    /// The absolute path of the file; `None` if the file is not local.
    pub local_abs_path: Option<ComponentPath>,
}

/// A buffer at the time it is added.
#[derive(Debug, PartialEq, Eq)]
pub struct BufferState {
    pub remote_id: BufferId,
    /// The file that the buffer shows, if any.
    pub file: Option<FileState>,
}

impl BufferState {
    /// The path of the buffer's file if that file is local and belongs to a
    /// known worktree that is not visible.
    pub open spec fn external_file(self, app: App) -> Option<PathView> {
        match self.file {
            Some(FileState { worktree_id, local_abs_path: Some(path) }) => {
                if app.worktree_visibility@.contains_key(worktree_id)
                    && !app.worktree_visibility@[worktree_id] {
                    Some(path@)
                } else {
                    None
                }
            },
            _ => None,
        }
    }
}

/// What the buffer store reports.
#[derive(Debug, PartialEq, Eq)]
pub enum BufferStoreEvent {
    BufferAdded(BufferState),
    BufferDropped(BufferId),
    /// Anything else.
    Other,
}

/// What the worktree store reports.
#[derive(Clone, Copy, Debug, PartialEq, Eq, Structural)]
pub enum WorktreeStoreEvent {
    /// A worktree was added; `visible` tells whether it is visible.
    WorktreeAdded { visible: bool },
    /// Anything else.
    Other,
}

/// A worktree that an entry lives in.
#[derive(Debug, PartialEq, Eq)]
pub struct SourceWorktree {
    pub is_visible: bool,
    pub is_single_file: bool,
    /// The absolute path of the entry; `None` if the worktree has no such entry.
    pub entry_path: Option<ComponentPath>,
    pub path_style: PathStyle,
}

impl SourceWorktree {
    /// The entry's path if the worktree is an invisible single-file worktree
    /// that has the entry.
    pub open spec fn single_file_entry(self) -> Option<PathView> {
        match self.entry_path {
            Some(path) if !self.is_visible && self.is_single_file => Some(path@),
            _ => None,
        }
    }
}

/// Something that the store asks the application to do.
#[derive(Debug, PartialEq, Eq)]
pub enum Effect {
    /// Emit an event to the subscribers of the store.
    Emit(ExternalLibrariesEvent),
    /// Tell the observers of the store that it changed.
    Notify,
    /// Start a timer in place of the one that is running, and report back when
    /// it elapses.
    StartEnumerationTimer { task: u64, delay_ms: u64 },
    /// Ask every provider for the dependencies of every root, and report back.
    ListDependencies { roots: Vec<ComponentPath>, providers: usize },
    /// Find or create a worktree at `library_root`, and report back.
    CreateWorktree {
        library_root: ComponentPath,
        visible: bool,
        origin: LibraryOrigin,
        buffer_id: Option<u64>,
    },
}

/// The mathematical value of an [`Effect`].
pub enum EffectView {
    Emit(ExternalLibrariesEvent),
    Notify,
    StartEnumerationTimer { task: u64, delay_ms: u64 },
    ListDependencies { roots: Seq<PathView>, providers: usize },
    CreateWorktree {
        library_root: PathView,
        visible: bool,
        origin: LibraryOrigin,
        buffer_id: Option<u64>,
    },
}

impl View for Effect {
    type V = EffectView;

    open spec fn view(&self) -> EffectView {
        match self {
            Effect::Emit(event) => EffectView::Emit(*event),
            Effect::Notify => EffectView::Notify,
            Effect::StartEnumerationTimer { task, delay_ms } => EffectView::StartEnumerationTimer {
                task: *task,
                delay_ms: *delay_ms,
            },
            Effect::ListDependencies { roots, providers } => EffectView::ListDependencies {
                roots: path_views(roots@),
                providers: *providers,
            },
            Effect::CreateWorktree { library_root, visible, origin, buffer_id } => {
                EffectView::CreateWorktree {
                    library_root: library_root@,
                    visible: *visible,
                    origin: *origin,
                    buffer_id: *buffer_id,
                }
            },
        }
    }
}

/// The application as the store sees it during a call.
pub struct Context {
    pub app: App,
    /// What the store has asked for, oldest first.
    pub effects: Vec<Effect>,
}

impl Context {
    /// What the store has asked for, oldest first.
    pub open spec fn asked(self) -> Seq<EffectView> {
        self.effects@.map_values(|effect: Effect| effect@)
    }

    /// A context in which nothing has been asked for yet.
    pub fn new(app: App) -> (cx: Context)
        ensures
            cx.app == app,
            cx.asked() == Seq::<EffectView>::empty(),
    {
        let cx = Context { app, effects: Vec::new() };
        assert(cx.asked() =~= Seq::<EffectView>::empty());
        cx
    }

    /// Asks for `effect`.
    pub fn ask(&mut self, effect: Effect)
        ensures
            final(self).app == old(self).app,
            final(self).asked() == old(self).asked().push(effect@),
    {
        self.effects.push(effect);
        assert(self.asked() =~= old(self).asked().push(effect@));
    }
}

} // verus!
