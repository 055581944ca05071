//! The navigation and load coordinator: it owns the ordered collection of
//! image paths, the cursor, the per-image side tables and the load state,
//! and decides every transition.
//!
//! At most one load is in flight at a time. Each request carries a fresh
//! token; issuing a new request hands back the superseded token so the shell
//! can cancel the old operation. A completion or failure event is applied
//! only if its key still matches the cursor — the key match at delivery, not
//! the cancellation, is the authoritative filter. A failed entry is removed
//! and browsing skips onward in the direction that was last requested.

use vstd::prelude::*;

use crate::collection::{OrderedCollection, StableKey};
use crate::config::{Config, ImageScaling};
use crate::events::LoadError;
use crate::math::Pixels;
use crate::percent::{step_next_spec, step_prev_spec, Percent};
use crate::side_table::SideTable;

verus! {

/// Per-image facts discovered by the metadata probe.
#[derive(Debug, Clone, Copy, PartialEq, Eq, Structural)]
pub struct ImageMeta {
    pub dimensions: Pixels,
    pub filesize: i64,
}

/// A requested cursor movement.
#[derive(Copy, Clone, Debug, PartialEq, Eq, Structural)]
pub enum ImageTransition {
    Next,
    Prev,
    Start,
    End,
}

/// The coordinator's load state: exactly one of these holds at a time.
#[derive(Debug, Clone, Copy, PartialEq, Eq, Structural)]
pub enum State {
    /// The collection is empty; nothing can be shown.
    NoImages,
    /// A load operation is outstanding, identified by its token;
    /// `last_transition` records the movement that triggered it, which picks
    /// the direction to skip on failure.
    LoadingImage { token: u64, last_transition: ImageTransition },
    /// The most recent load for the current cursor finished; `scale` is the
    /// percentage applied to the native size for rendering.
    DisplayImage { handle: u64, native: Pixels, scale: Percent },
}

/// An instruction to the shell: cancel the superseded operation (if any) and
/// start loading `path` for `key` under `token`. The shell also clears the
/// display, so stale pixels are never shown for the new position.
#[derive(Debug)]
pub struct LoadRequest {
    pub cancel: Option<u64>,
    pub token: u64,
    pub key: StableKey,
    pub path: String,
}

/// An instruction to the shell: render the decoded image `handle` at `size`.
#[derive(Debug, Clone, Copy, PartialEq, Eq, Structural)]
pub struct ShowImage {
    pub handle: u64,
    pub size: Pixels,
    pub scale: Percent,
}

/// The values the status renderer shows; `-1` stands for "not known".
#[derive(Debug)]
pub struct StatusInfo {
    pub index: i64,
    pub nimages: usize,
    pub width: i64,
    pub height: i64,
    pub filesize: i64,
    pub filename: String,
    pub fullpath: String,
}

/// The position of the last path separator in `s`, or `-1`.
pub open spec fn last_sep(s: Seq<char>) -> int
    decreases s.len(),
{
    if s.len() == 0 {
        -1
    } else if s.last() == '/' {
        s.len() - 1
    } else {
        last_sep(s.drop_last())
    }
}

/// The part of `s` after its last path separator.
pub open spec fn basename_of(s: Seq<char>) -> Seq<char> {
    s.subrange(last_sep(s) + 1, s.len() as int)
}

/// `last_sep` finds exactly the last separator.
proof fn lemma_last_sep_at(s: Seq<char>, c: int)
    requires
        -1 <= c < s.len(),
        c >= 0 ==> s[c] == '/',
        forall|x: int| c < x < s.len() ==> s[x] != '/',
    ensures
        last_sep(s) == c,
    decreases s.len(),
{
    if s.len() == 0 {
    } else if s.last() == '/' {
        assert(c == s.len() - 1);
    } else {
        assert(c < s.len() - 1);
        lemma_last_sep_at(s.drop_last(), c);
    }
}

/// The file name: the part of `path` after the last `/`, the whole path when
/// there is none.
pub fn file_name(path: &str) -> (r: String)
    ensures
        r@ == basename_of(path@),
{
    let n = path.unicode_len();
    let mut cut: usize = n;
    while cut > 0
        invariant
            cut <= n == path@.len(),
            forall|x: int| cut <= x < n ==> path@[x] != '/',
        ensures
            cut <= n,
            forall|x: int| cut <= x < n ==> path@[x] != '/',
            cut > 0 ==> path@[cut - 1] == '/',
        decreases cut,
    {
        if path.get_char(cut - 1) == '/' {
            break;
        }
        cut = cut - 1;
    }
    proof {
        lemma_last_sep_at(path@, cut - 1);
    }
    let tail = path.substring_char(cut, n);
    tail.to_owned()
}

/// The direction in which browsing continues after a failure under the given
/// transition: forward movements skip forward, backward movements skip back.
pub open spec fn retry_direction(t: ImageTransition) -> ImageTransition {
    match t {
        ImageTransition::Next => ImageTransition::Next,
        ImageTransition::Start => ImageTransition::Next,
        ImageTransition::Prev => ImageTransition::Prev,
        ImageTransition::End => ImageTransition::Prev,
    }
}

/// The native size scaled by `pct`, rounded down; `None` where a side leaves
/// `u32`.
pub open spec fn scaled_size_spec(native: Pixels, pct: Percent) -> Option<Pixels> {
    let x = native.x * pct.0 / 100;
    let y = native.y * pct.0 / 100;
    if x <= u32::MAX && y <= u32::MAX {
        Some((Pixels { x: x as u32, y: y as u32 }))
    } else {
        None
    }
}

/// The native size scaled by `pct`, rounded down.
fn scaled_size(native: Pixels, pct: Percent) -> (r: Option<Pixels>)
    ensures
        r == scaled_size_spec(native, pct),
{
    proof {
        crate::ratio::lemma_u64_mul_fits(native.x as u64, pct.0);
        crate::ratio::lemma_u64_mul_fits(native.y as u64, pct.0);
    }
    let x = (native.x as u128) * (pct.0 as u128) / 100;
    let y = (native.y as u128) * (pct.0 as u128) / 100;
    if x > u32::MAX as u128 || y > u32::MAX as u128 {
        None
    } else {
        Some(Pixels { x: x as u32, y: y as u32 })
    }
}

/// The navigation and asynchronous-load coordinator.
pub struct App {
    pub images: OrderedCollection<String>,
    pub cursor: Option<StableKey>,
    pub index: Option<usize>,
    pub images_meta: SideTable<ImageMeta>,
    pub filenames: SideTable<String>,
    pub state: State,
    pub config: Config,
    pub is_fullscreen: bool,
    pub next_token: u64,
}

impl App {
    /// The coordinator's invariant: the cursor and the 1-based index name the
    /// same entry, both are absent exactly while the collection is empty,
    /// `NoImages` holds exactly then, and no outstanding token was minted
    /// ahead of the counter.
    pub open spec fn wf(self) -> bool {
        &&& self.images.wf()
        &&& (self.cursor is None <==> self.images.spec_len() == 0)
        &&& (self.index is None <==> self.cursor is None)
        &&& (self.cursor matches Some(k) ==> self.images.contains_key(k) && self.index == Some(
            (self.images.spec_index_of(k) + 1) as usize,
        ))
        &&& ((self.state matches State::NoImages) <==> self.images.spec_len() == 0)
        &&& (self.state matches State::LoadingImage { token, .. } ==> token < self.next_token)
    }

    /// The key a transition would move to: the neighbour for `Next`/`Prev`
    /// (`None` at the boundary — no wraparound), the first or last entry for
    /// the jumps, `None` on an empty collection.
    pub open spec fn spec_transition_target(self, t: ImageTransition) -> Option<StableKey> {
        match t {
            ImageTransition::Next => match self.cursor {
                Some(cur) => self.images.spec_next(cur),
                None => None,
            },
            ImageTransition::Prev => match self.cursor {
                Some(cur) => self.images.spec_prev(cur),
                None => None,
            },
            ImageTransition::Start => if self.images.spec_len() == 0 {
                None
            } else {
                Some(self.images.keys()[0])
            },
            ImageTransition::End => if self.images.spec_len() == 0 {
                None
            } else {
                Some(self.images.keys()[self.images.spec_len() - 1])
            },
        }
    }

    /// A fresh coordinator over the given paths, together with the load
    /// request for the first image, if there is one.
    pub fn new(paths: Vec<String>, config: Config) -> (r: (App, Option<LoadRequest>))
        ensures
            r.0.wf(),
            r.0.images.values() == paths@,
            r.0.config == config,
            !r.0.is_fullscreen,
            paths@.len() == 0 ==> (r.0.state matches State::NoImages) && r.1 is None,
            paths@.len() > 0 ==> ({
                &&& r.0.cursor == Some(r.0.images.keys()[0])
                &&& r.0.index == Some(1usize)
                &&& r.0.state == (State::LoadingImage {
                    token: 0,
                    last_transition: ImageTransition::Next,
                })
                &&& r.1 matches Some(req) && req.cancel is None && req.token == 0 && req.key
                    == r.0.images.keys()[0] && req.path@ == paths@[0]@
                &&& r.0.filenames.spec_get(r.0.images.keys()[0]) matches Some(f) && f@
                    == basename_of(paths@[0]@)
            }),
    {
        let images = OrderedCollection::from_vec(paths);
        let cursor = images.head();
        proof {
            images.lemma_lens();
            if images.spec_len() > 0 {
                images.lemma_key_at_position(0);
            }
        }
        match cursor {
            None => {
                let app = App {
                    images,
                    cursor: None,
                    index: None,
                    images_meta: SideTable::new(),
                    filenames: SideTable::new(),
                    state: State::NoImages,
                    config,
                    is_fullscreen: false,
                    next_token: 0,
                };
                (app, None)
            },
            Some(k) => {
                let path = match images.get(k) {
                    Some(p) => clone_string(p),
                    None => String::new(),
                };
                proof {
                    images.lemma_contains_slot_small(k);
                }
                let mut filenames = SideTable::new();
                filenames.insert(k, file_name(path.as_str()));
                let app = App {
                    images,
                    cursor: Some(k),
                    index: Some(1),
                    images_meta: SideTable::new(),
                    filenames,
                    state: State::LoadingImage {
                        token: 0,
                        last_transition: ImageTransition::Next,
                    },
                    config,
                    is_fullscreen: false,
                    next_token: 1,
                };
                let req = LoadRequest { cancel: None, token: 0, key: k, path };
                (app, Some(req))
            },
        }
    }

    /// The key the transition moves to, without moving.
    pub fn try_transition(&self, transition: ImageTransition) -> (r: Option<StableKey>)
        requires
            self.wf(),
        ensures
            r == self.spec_transition_target(transition),
    {
        match transition {
            ImageTransition::Next => match self.cursor {
                Some(cur) => self.images.next(cur),
                None => None,
            },
            ImageTransition::Prev => match self.cursor {
                Some(cur) => self.images.prev(cur),
                None => None,
            },
            ImageTransition::Start => self.images.head(),
            ImageTransition::End => self.images.tail(),
        }
    }

    /// Whether an event for `id` concerns the current cursor position.
    pub fn is_currently_loading_image(&self, id: StableKey) -> (r: bool)
        ensures
            r <==> self.cursor == Some(id),
    {
        match self.cursor {
            Some(c) => c == id,
            None => false,
        }
    }

    /// Moves the cursor along `transition` and issues a load for the new
    /// position: the outstanding operation (if any) is named for
    /// cancellation, a fresh token is minted, the 1-based index follows the
    /// cursor, and the file name cache for the new key is filled if it was
    /// empty. A transition with no target (boundary, or empty collection)
    /// changes nothing.
    pub fn try_load(&mut self, transition: ImageTransition) -> (r: Option<LoadRequest>)
        requires
            old(self).wf(),
            old(self).next_token < u64::MAX,
        ensures
            final(self).wf(),
            r is Some <==> old(self).spec_transition_target(transition) is Some,
            r is None ==> *final(self) == *old(self),
            r matches Some(req) ==> ({
                let target = old(self).spec_transition_target(transition)->0;
                let j = old(self).images.spec_index_of(target);
                &&& req.key == target
                &&& req.token == old(self).next_token
                &&& req.path@ == old(self).images.values()[j]@
                &&& req.cancel == (match old(self).state {
                    State::LoadingImage { token, .. } => Some(token),
                    _ => None,
                })
                &&& final(self).cursor == Some(target)
                &&& final(self).index == Some((j + 1) as usize)
                &&& final(self).state == (State::LoadingImage {
                    token: req.token,
                    last_transition: transition,
                })
                &&& final(self).next_token == old(self).next_token + 1
                &&& final(self).images == old(self).images
                &&& final(self).images_meta == old(self).images_meta
                &&& final(self).config == old(self).config
                &&& final(self).is_fullscreen == old(self).is_fullscreen
                &&& final(self).filenames.spec_get(target) is Some
                &&& (old(self).filenames.spec_get(target) is Some ==> final(self).filenames
                    == old(self).filenames)
                &&& (old(self).filenames.spec_get(target) is None ==> (final(self).filenames.spec_get(target) matches Some(f) && f@ == basename_of(
                    old(self).images.values()[j]@,
                )))
                &&& (forall|k2: StableKey|
                    k2 != target ==> #[trigger] final(self).filenames.spec_get(k2) == old(self).filenames.spec_get(k2))
            }),
    {
        let target = match self.try_transition(transition) {
            None => {
                return None;
            },
            Some(t) => t,
        };
        proof {
            match transition {
                ImageTransition::Next => {
                    self.images.lemma_next_position(self.cursor->0, target);
                },
                ImageTransition::Prev => {
                    self.images.lemma_prev_position(self.cursor->0, target);
                },
                ImageTransition::Start => {
                    self.images.lemma_key_at_position(0);
                },
                ImageTransition::End => {
                    self.images.lemma_key_at_position(self.images.spec_len() - 1);
                },
            }
            self.images.lemma_len_bounded();
            self.images.lemma_position_of(target);
            self.images.lemma_contains_slot_small(target);
        }
        let path = match self.images.get(target) {
            Some(p) => clone_string(p),
            None => String::new(),
        };
        if self.filenames.get(target).is_none() {
            let name = file_name(path.as_str());
            self.filenames.insert(target, name);
        }
        let position = match self.images.position(target) {
            Some(p) => p,
            None => 0,
        };
        let token = self.next_token;
        let cancel = match self.state {
            State::LoadingImage { token: t, .. } => Some(t),
            _ => None,
        };
        self.state = State::LoadingImage { token, last_transition: transition };
        self.cursor = Some(target);
        self.index = Some(position + 1);
        self.next_token = token + 1;
        Some(LoadRequest { cancel, token, key: target, path })
    }

    /// Applies a finished load. An event whose key no longer matches the
    /// cursor is superseded and dropped without any effect — this is the
    /// authoritative stale-event filter. A matching load moves to
    /// `DisplayImage` and is rendered at the size the initial scaling policy
    /// picks for the current viewport `alloc`; if the policy yields no valid
    /// size, the image is held at its native size (100%) unrendered.
    pub fn on_image_loaded(&mut self, id: StableKey, handle: u64, size: Pixels, alloc: Pixels) -> (r:
        Option<ShowImage>)
        requires
            old(self).wf(),
        ensures
            final(self).wf(),
            old(self).cursor != Some(id) ==> *final(self) == *old(self) && r is None,
            old(self).cursor == Some(id) ==> ({
                let fit = crate::math::scale_spec(
                    alloc,
                    size,
                    old(self).config.mode.initial_scaling,
                );
                &&& (fit matches Some(ts) ==> final(self).state == (State::DisplayImage {
                    handle,
                    native: size,
                    scale: ts.1,
                }) && r == Some(
                    (ShowImage { handle, size: ts.0, scale: ts.1 }),
                ))
                &&& (fit is None ==> final(self).state == (State::DisplayImage {
                    handle,
                    native: size,
                    scale: Percent(100),
                }) && r is None)
                &&& *final(self) == (App { state: final(self).state, ..*old(self) })
            }),
    {
        if !self.is_currently_loading_image(id) {
            return None;
        }
        match crate::math::scale(alloc, size, self.config.mode.initial_scaling) {
            Some((target, pct)) => {
                self.state = State::DisplayImage { handle, native: size, scale: pct };
                Some(ShowImage { handle, size: target, scale: pct })
            },
            None => {
                self.state = State::DisplayImage { handle, native: size, scale: Percent(100) };
                None
            },
        }
    }

    /// Records the facts a metadata probe discovered for `id`. Facts for a
    /// key that is no longer live are dropped: its row was destroyed with the
    /// entry, and stale keys must not write.
    pub fn on_image_meta(&mut self, id: StableKey, meta: ImageMeta)
        requires
            old(self).wf(),
        ensures
            final(self).wf(),
            !old(self).images.contains_key(id) ==> *final(self) == *old(self),
            old(self).images.contains_key(id) ==> ({
                &&& final(self).images_meta.spec_get(id) == Some(meta)
                &&& (forall|k2: StableKey|
                    k2 != id ==> #[trigger] final(self).images_meta.spec_get(k2) == old(self).images_meta.spec_get(k2))
                &&& *final(self) == (App { images_meta: final(self).images_meta, ..*old(self) })
            }),
    {
        if self.images.get(id).is_some() {
            proof {
                self.images.lemma_contains_slot_small(id);
            }
            self.images_meta.insert(id, meta);
        }
    }

    /// Applies a load failure. A failure for a superseded key, or one that
    /// arrives while nothing is loading, is dropped. Otherwise the failed
    /// entry and its side-table rows are removed, and browsing skips onward
    /// in the direction recorded by the outstanding load — forward for
    /// `Next`/`Start`, backward for `Prev`/`End`, the other way at a
    /// boundary. If that removed the last entry, the coordinator goes to
    /// `NoImages`. The failure kind does not matter: every failure is
    /// recoverable and handled by this same skip.
    pub fn on_load_failed(&mut self, id: StableKey, err: LoadError) -> (r: Option<LoadRequest>)
        requires
            old(self).wf(),
            old(self).next_token < u64::MAX,
        ensures
            final(self).wf(),
            old(self).cursor != Some(id) ==> *final(self) == *old(self) && r is None,
            (old(self).cursor == Some(id) && !(old(self).state matches State::LoadingImage { .. })) ==> *final(self) == *old(self) && r is None,
            (old(self).cursor == Some(id) && old(self).state matches State::LoadingImage { .. }) ==> ({
                let j = old(self).images.spec_index_of(id);
                let d = retry_direction(old(self).state->LoadingImage_last_transition);
                let forward = old(self).images.spec_next(id);
                let backward = old(self).images.spec_prev(id);
                let replacement = if (d matches ImageTransition::Next) {
                    if (forward is Some) {
                        forward
                    } else {
                        backward
                    }
                } else {
                    if (backward is Some) {
                        backward
                    } else {
                        forward
                    }
                };
                &&& final(self).images.keys() == old(self).images.keys().remove(j)
                &&& final(self).images.values() == old(self).images.values().remove(j)
                &&& final(self).images_meta.spec_get(id) is None
                &&& final(self).filenames.spec_get(id) is None
                &&& (forall|k3: StableKey|
                    k3 != id ==> #[trigger] final(self).images_meta.spec_get(k3) == old(
                        self,
                    ).images_meta.spec_get(k3))
                &&& (replacement is None ==> (final(self).state matches State::NoImages) && final(self).cursor is None && r is None)
                &&& (replacement matches Some(k2) ==> ({
                    &&& final(self).cursor == Some(k2)
                    &&& final(self).state == (State::LoadingImage {
                        token: old(self).next_token,
                        last_transition: d,
                    })
                    &&& final(self).next_token == old(self).next_token + 1
                    &&& r matches Some(req) && req.token == old(self).next_token && req.key
                        == k2 && req.cancel == Some(old(self).state->LoadingImage_token)
                        && req.path@ == old(self).images.values()[old(self).images.spec_index_of(k2)]@
                }))
            }),
    {
        if !self.is_currently_loading_image(id) {
            return None;
        }
        let (old_token, last_transition) = match self.state {
            State::LoadingImage { token, last_transition } => (token, last_transition),
            _ => {
                return None;
            },
        };
        let ghost pre = *self;
        proof {
            self.images.lemma_position_of(id);
        }
        let forward_first = match retry_direction_exec(last_transition) {
            ImageTransition::Next => true,
            _ => false,
        };
        let first_try = if forward_first {
            self.images.next(id)
        } else {
            self.images.prev(id)
        };
        let second_try = if forward_first {
            self.images.prev(id)
        } else {
            self.images.next(id)
        };
        let replacement = match first_try {
            Some(k2) => Some(k2),
            None => second_try,
        };
        self.images.remove(id);
        self.images_meta.remove(id);
        self.filenames.remove(id);
        let d = retry_direction_exec(last_transition);
        match replacement {
            None => {
                proof {
                    // With no neighbour on either side, `id` was the only
                    // entry, so the collection is now empty.
                    pre.images.lemma_position_of(id);
                    let j = pre.images.spec_index_of(id);
                    assert(pre.images.spec_len() == 1) by {
                        if pre.images.spec_len() > 1 {
                            assert(j == pre.images.spec_len() - 1 && j == 0);
                        }
                    }
                }
                self.cursor = None;
                self.index = None;
                self.state = State::NoImages;
                None
            },
            Some(k2) => {
                proof {
                    let j = pre.images.spec_index_of(id);
                    if (first_try is Some) {
                        if forward_first {
                            pre.images.lemma_next_position(id, k2);
                        } else {
                            pre.images.lemma_prev_position(id, k2);
                        }
                    } else {
                        if forward_first {
                            pre.images.lemma_prev_position(id, k2);
                        } else {
                            pre.images.lemma_next_position(id, k2);
                        }
                    }
                    OrderedCollection::<String>::lemma_contains_after_remove(
                        pre.images,
                        self.images,
                        id,
                        k2,
                    );
                    self.images.lemma_contains_slot_small(k2);
                    self.images.lemma_len_bounded();
                    self.images.lemma_position_of(k2);
                    pre.images.lemma_position_of(k2);
                    pre.images.lemma_lens();
                    pre.images.values().remove_ensures(j);
                    let j2 = pre.images.spec_index_of(k2);
                    let p2 = self.images.spec_index_of(k2);
                    assert(self.images.keys()[p2] == k2);
                    if j2 < j {
                        assert(self.images.keys()[j2] == k2);
                        assert(p2 == j2);
                        assert(self.images.values()[p2] == pre.images.values()[j2]);
                    } else {
                        assert(self.images.keys()[j2 - 1] == k2);
                        assert(p2 == j2 - 1);
                        assert(self.images.values()[p2] == pre.images.values()[j2]);
                    }
                }
                let path = match self.images.get(k2) {
                    Some(p) => clone_string(p),
                    None => String::new(),
                };
                if self.filenames.get(k2).is_none() {
                    let name = file_name(path.as_str());
                    self.filenames.insert(k2, name);
                }
                let position = match self.images.position(k2) {
                    Some(p) => p,
                    None => 0,
                };
                let token = self.next_token;
                self.cursor = Some(k2);
                self.index = Some(position + 1);
                self.state = State::LoadingImage { token, last_transition: d };
                self.next_token = token + 1;
                Some(LoadRequest { cancel: Some(old_token), token, key: k2, path })
            },
        }
    }

    /// Rescales the displayed image (if any) to `alloc` under `scaling`,
    /// remembering the applied percentage; without a valid fit, nothing
    /// changes.
    pub fn rescale_displayed(&mut self, alloc: Pixels, scaling: ImageScaling) -> (r: Option<
        ShowImage,
    >)
        requires
            old(self).wf(),
        ensures
            final(self).wf(),
            !(old(self).state matches State::DisplayImage { .. }) ==> *final(self) == *old(self) && r
                is None,
            old(self).state matches State::DisplayImage { handle, native, scale } ==> ({
                let fit = crate::math::scale_spec(alloc, native, scaling);
                &&& (fit matches Some(ts) ==> final(self).state == (State::DisplayImage {
                    handle,
                    native,
                    scale: ts.1,
                }) && r == Some((ShowImage { handle, size: ts.0, scale: ts.1 })) && *final(self)
                    == (App { state: final(self).state, ..*old(self) }))
                &&& (fit is None ==> *final(self) == *old(self) && r is None)
            }),
    {
        let (handle, native) = match self.state {
            State::DisplayImage { handle, native, .. } => (handle, native),
            _ => {
                return None;
            },
        };
        match crate::math::scale(alloc, native, scaling) {
            Some((target, pct)) => {
                self.state = State::DisplayImage { handle, native, scale: pct };
                Some(ShowImage { handle, size: target, scale: pct })
            },
            None => None,
        }
    }

    /// Rescales the displayed image under the configured initial policy.
    pub fn scale_initial(&mut self, alloc: Pixels) -> (r: Option<ShowImage>)
        requires
            old(self).wf(),
        ensures
            final(self).wf(),
            !(old(self).state matches State::DisplayImage { .. }) ==> *final(self) == *old(self) && r
                is None,
            old(self).state matches State::DisplayImage { handle, native, scale } ==> ({
                let fit = crate::math::scale_spec(
                    alloc,
                    native,
                    old(self).config.mode.initial_scaling,
                );
                &&& (fit matches Some(ts) ==> final(self).state == (State::DisplayImage {
                    handle,
                    native,
                    scale: ts.1,
                }) && r == Some((ShowImage { handle, size: ts.0, scale: ts.1 })))
                &&& (fit is None ==> *final(self) == *old(self) && r is None)
            }),
    {
        let scaling = self.config.mode.initial_scaling;
        self.rescale_displayed(alloc, scaling)
    }

    /// Rescales the displayed image to fill the viewport while keeping its
    /// shape.
    pub fn scale_to_fit(&mut self, alloc: Pixels) -> (r: Option<ShowImage>)
        requires
            old(self).wf(),
        ensures
            final(self).wf(),
            !(old(self).state matches State::DisplayImage { .. }) ==> *final(self) == *old(self) && r
                is None,
            old(self).state matches State::DisplayImage { handle, native, scale } ==> ({
                let fit = crate::math::scale_spec(alloc, native, ImageScaling::Fit);
                &&& (fit matches Some(ts) ==> final(self).state == (State::DisplayImage {
                    handle,
                    native,
                    scale: ts.1,
                }) && r == Some((ShowImage { handle, size: ts.0, scale: ts.1 })))
                &&& (fit is None ==> *final(self) == *old(self) && r is None)
            }),
    {
        self.rescale_displayed(alloc, ImageScaling::Fit)
    }

    /// Steps the zoom one configured step up: the new scale is the old one
    /// plus the step, quantized to multiples of the step (halves up) and
    /// never below it. The zoom applies only while an image is displayed and
    /// the rescaled size is representable; otherwise nothing changes.
    pub fn zoom_in(&mut self) -> (r: Option<ShowImage>)
        requires
            old(self).wf(),
        ensures
            final(self).wf(),
            !(old(self).state matches State::DisplayImage { .. }) ==> *final(self) == *old(self) && r
                is None,
            old(self).state matches State::DisplayImage { handle, native, scale } ==> ({
                let step = old(self).config.zoom_step_size;
                if scale.0 + 2 * step.0 <= u64::MAX {
                    let next = Percent(
                        step_next_spec(scale.0 as int, step.0 as int, step.0 as int) as u64,
                    );
                    match scaled_size_spec(native, next) {
                        Some(target) => {
                            &&& final(self).state == (State::DisplayImage {
                                handle,
                                native,
                                scale: next,
                            })
                            &&& r == Some((ShowImage { handle, size: target, scale: next }))
                            &&& *final(self) == (App {
                                state: final(self).state,
                                ..*old(self)
                            })
                        },
                        None => *final(self) == *old(self) && r is None,
                    }
                } else {
                    *final(self) == *old(self) && r is None
                }
            }),
    {
        let (handle, native, scale) = match self.state {
            State::DisplayImage { handle, native, scale } => (handle, native, scale),
            _ => {
                return None;
            },
        };
        let step = self.config.zoom_step_size;
        if step.0 > u64::MAX / 2 || scale.0 > u64::MAX - 2 * step.0 {
            return None;
        }
        let next = scale.step_next(step, step);
        match scaled_size(native, next) {
            Some(target) => {
                self.state = State::DisplayImage { handle, native, scale: next };
                Some(ShowImage { handle, size: target, scale: next })
            },
            None => None,
        }
    }

    /// Steps the zoom one configured step down: the new scale is the old one
    /// minus the step (bottoming out at zero before quantization), quantized
    /// to multiples of the step (halves up) and never below one step — zoom
    /// never reaches zero. The zoom applies only while an image is displayed
    /// and the rescaled size is representable; otherwise nothing changes.
    pub fn zoom_out(&mut self) -> (r: Option<ShowImage>)
        requires
            old(self).wf(),
        ensures
            final(self).wf(),
            !(old(self).state matches State::DisplayImage { .. }) ==> *final(self) == *old(self) && r
                is None,
            old(self).state matches State::DisplayImage { handle, native, scale } ==> ({
                let step = old(self).config.zoom_step_size;
                let next = Percent(
                    step_prev_spec(scale.0 as int, step.0 as int, step.0 as int) as u64,
                );
                match scaled_size_spec(native, next) {
                    Some(target) => {
                        &&& final(self).state == (State::DisplayImage {
                            handle,
                            native,
                            scale: next,
                        })
                        &&& r == Some((ShowImage { handle, size: target, scale: next }))
                        &&& *final(self) == (App { state: final(self).state, ..*old(self) })
                    },
                    None => *final(self) == *old(self) && r is None,
                }
            }),
    {
        let (handle, native, scale) = match self.state {
            State::DisplayImage { handle, native, scale } => (handle, native, scale),
            _ => {
                return None;
            },
        };
        let step = self.config.zoom_step_size;
        let next = scale.step_prev(step, step);
        match scaled_size(native, next) {
            Some(target) => {
                self.state = State::DisplayImage { handle, native, scale: next };
                Some(ShowImage { handle, size: target, scale: next })
            },
            None => None,
        }
    }

    /// Flips the fullscreen flag; the result says whether the window should
    /// now be fullscreen.
    pub fn toggle_fullscreen(&mut self) -> (r: bool)
        requires
            old(self).wf(),
        ensures
            final(self).wf(),
            final(self).is_fullscreen == !old(self).is_fullscreen,
            r == final(self).is_fullscreen,
            *final(self) == (App { is_fullscreen: final(self).is_fullscreen, ..*old(self) }),
    {
        self.is_fullscreen = !self.is_fullscreen;
        self.is_fullscreen
    }

    /// The values for the status line: the 1-based position and count, the
    /// current image's known facts (`-1` where nothing is known yet), its
    /// cached file name and its full path (empty while absent).
    pub fn status_info(&self) -> (r: StatusInfo)
        requires
            self.wf(),
        ensures
            r.index == (match self.index {
                Some(i) => if i <= i64::MAX {
                    i as i64
                } else {
                    i64::MAX
                },
                None => -1i64,
            }),
            r.nimages == self.images.spec_len(),
            self.cursor is None ==> r.width == -1 && r.height == -1 && r.filesize == -1
                && r.filename@.len() == 0 && r.fullpath@.len() == 0,
            self.cursor matches Some(k) ==> ({
                &&& (match self.images_meta.spec_get(k) {
                    Some(m) => r.width == m.dimensions.x && r.height == m.dimensions.y
                        && r.filesize == m.filesize,
                    None => r.width == -1 && r.height == -1 && r.filesize == -1,
                })
                &&& (match self.filenames.spec_get(k) {
                    Some(f) => r.filename@ == f@,
                    None => r.filename@.len() == 0,
                })
                &&& r.fullpath@ == self.images.values()[self.images.spec_index_of(k)]@
            }),
    {
        let index: i64 = match self.index {
            Some(i) => if (i as u64) <= (i64::MAX as u64) {
                i as i64
            } else {
                i64::MAX
            },
            None => -1,
        };
        let nimages = self.images.len();
        let mut width: i64 = -1;
        let mut height: i64 = -1;
        let mut filesize: i64 = -1;
        let mut filename = String::new();
        let mut fullpath = String::new();
        match self.cursor {
            None => {},
            Some(k) => {
                match self.images_meta.get(k) {
                    Some(m) => {
                        width = m.dimensions.x as i64;
                        height = m.dimensions.y as i64;
                        filesize = m.filesize;
                    },
                    None => {},
                }
                match self.filenames.get(k) {
                    Some(f) => {
                        filename = clone_string(f);
                    },
                    None => {},
                }
                match self.images.get(k) {
                    Some(p) => {
                        fullpath = clone_string(p);
                    },
                    None => {},
                }
            },
        }
        StatusInfo { index, nimages, width, height, filesize, filename, fullpath }
    }
}

/// The direction in which browsing continues after a failure.
fn retry_direction_exec(t: ImageTransition) -> (r: ImageTransition)
    ensures
        r == retry_direction(t),
{
    match t {
        ImageTransition::Next => ImageTransition::Next,
        ImageTransition::Start => ImageTransition::Next,
        ImageTransition::Prev => ImageTransition::Prev,
        ImageTransition::End => ImageTransition::Prev,
    }
}

/// A copy of `s` with the same characters.
fn clone_string(s: &String) -> (r: String)
    ensures
        r@ == s@,
{
    s.clone()
}

} // verus!
