//! In-memory data source over a [`Session`] and its flattened layout.
use vstd::prelude::*;
use crate::data::{FlatSession, FlatSessionModel, Session, flatten, session_fits, spec_flatten};

verus! {

/// Metadata for a single track (independent of the current viewport).
#[derive(Clone, Debug)]
pub struct TrackInfo {
    pub name: String,
    pub max_depth: usize,
}

/// In-memory data source wrapping a [`Session`] together with its
/// flattened layout, which always matches the session.
pub struct MemoryDataSource {
    session: Session,
    flat: FlatSession,
}

impl MemoryDataSource {
    #[verifier::type_invariant]
    spec fn layout_matches(self) -> bool {
        self.flat@ == spec_flatten(self.session)
    }

    /// The session this source serves.
    pub closed spec fn spec_session(&self) -> Session {
        self.session
    }

    /// The flattened layout this source serves: always the flattening of
    /// its session (the type invariant).
    pub closed spec fn spec_flat(&self) -> FlatSessionModel {
        spec_flatten(self.session)
    }

    /// Create a new in-memory source from a [`Session`].
    pub fn new(session: Session) -> (s: Self)
        requires
            session_fits(session),
        ensures
            s.spec_session() == session,
            s.spec_flat() == spec_flatten(session),
    {
        let flat = flatten(&session);
        MemoryDataSource { session, flat }
    }

    /// Replace the underlying session data.
    pub fn set_session(&mut self, session: Session)
        requires
            session_fits(session),
        ensures
            final(self).spec_session() == session,
            final(self).spec_flat() == spec_flatten(session),
    {
        let flat = flatten(&session);
        *self = MemoryDataSource { session, flat };
    }

    /// Access the raw session.
    pub fn session(&self) -> (s: &Session)
        ensures
            *s == self.spec_session(),
    {
        &self.session
    }

    /// Access the flattened session.
    pub fn flat(&self) -> (f: &FlatSession)
        ensures
            f@ == self.spec_flat(),
    {
        proof {
            use_type_invariant(self);
        }
        &self.flat
    }

    /// Law (layout follows data): whatever the source holds, its flattened
    /// layout is the flattening of its session.
    pub proof fn law_layout_matches_session(&self)
        ensures
            self.spec_flat() == spec_flatten(self.spec_session()),
    {
    }

    /// Number of tracks.
    pub fn track_count(&self) -> (n: usize)
        ensures
            n == self.spec_flat().tracks.len(),
            n == self.spec_session().tracks@.len(),
    {
        proof {
            use_type_invariant(self);
            assert(self.flat@.tracks.len() == self.flat.tracks@.len());
        }
        self.flat.tracks.len()
    }

    /// End of the whole trace, nanoseconds.
    pub fn session_duration_ns(&self) -> (d: u128)
        ensures
            d == self.spec_flat().session_end,
    {
        proof {
            use_type_invariant(self);
        }
        self.flat.session_end
    }

    /// Metadata for track `index`.
    pub fn track_info(&self, index: usize) -> (info: TrackInfo)
        requires
            index < self.spec_flat().tracks.len(),
        ensures
            info.name@ == self.spec_session().tracks@[index as int].name@,
            info.max_depth == self.spec_flat().tracks[index as int].max_depth,
    {
        proof {
            use_type_invariant(self);
        }
        let track = &self.flat.tracks[index];
        TrackInfo { name: self.session.tracks[index].name.clone(), max_depth: track.max_depth }
    }
}

} // verus!
