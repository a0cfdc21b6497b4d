//! Cache orchestrator, decision part: given a download request and
//! which artifacts already exist at the derived base path, decides
//! exactly what to fetch and write. The caller performs the fetches and
//! writes and re-probes existence; an artifact already present is never
//! fetched or written again.
use crate::scanner::{matches_id, name_matches_id};
use crate::store::{delete_targets, spec_delete_targets};
use vstd::prelude::*;

verus! {

/// A download request: each resource is optional; unsupplied resources
/// stay absent in the materialized result.
pub struct ResourceRequest {
    /// Where to fetch the audio artifact.
    pub audio_url: Option<String>,
    /// Where to fetch the cover artifact.
    pub image_url: Option<String>,
    /// Raw lyric text to write as the sidecar artifact.
    pub lyric_text: Option<String>,
}

/// Mathematical form of a download request.
#[verifier::ext_equal]
pub struct RequestView {
    pub audio_url: Option<Seq<char>>,
    pub image_url: Option<Seq<char>>,
    pub lyric_text: Option<Seq<char>>,
}

impl View for ResourceRequest {
    type V = RequestView;

    open spec fn view(&self) -> RequestView {
        RequestView {
            audio_url: match self.audio_url {
                Some(ref u) => Some(u@),
                None => None,
            },
            image_url: match self.image_url {
                Some(ref u) => Some(u@),
                None => None,
            },
            lyric_text: match self.lyric_text {
                Some(ref t) => Some(t@),
                None => None,
            },
        }
    }
}

/// Which artifacts already exist at one base path.
#[derive(Clone, Copy, Debug, PartialEq, Eq, Structural)]
pub struct ArtifactPresence {
    pub audio: bool,
    pub cover: bool,
    pub lyrics: bool,
}

/// What one download request still has to do: each field carries the
/// URL to fetch or the text to write, or `None` where nothing is to be
/// done.
pub struct DownloadPlan {
    pub fetch_audio: Option<String>,
    pub fetch_image: Option<String>,
    pub write_lyrics: Option<String>,
}

/// Mathematical form of a download plan.
#[verifier::ext_equal]
pub struct PlanView {
    pub fetch_audio: Option<Seq<char>>,
    pub fetch_image: Option<Seq<char>>,
    pub write_lyrics: Option<Seq<char>>,
}

impl View for DownloadPlan {
    type V = PlanView;

    open spec fn view(&self) -> PlanView {
        PlanView {
            fetch_audio: match self.fetch_audio {
                Some(ref u) => Some(u@),
                None => None,
            },
            fetch_image: match self.fetch_image {
                Some(ref u) => Some(u@),
                None => None,
            },
            write_lyrics: match self.write_lyrics {
                Some(ref t) => Some(t@),
                None => None,
            },
        }
    }
}

/// The plan a request yields against what is already present: a
/// supplied resource whose artifact exists is left untouched; one whose
/// artifact is missing is fetched or written.
pub open spec fn spec_plan(rq: RequestView, p: ArtifactPresence) -> PlanView {
    PlanView {
        fetch_audio: if p.audio {
            None
        } else {
            rq.audio_url
        },
        fetch_image: if p.cover {
            None
        } else {
            rq.image_url
        },
        write_lyrics: if p.lyrics {
            None
        } else {
            rq.lyric_text
        },
    }
}

/// A plan that performs no fetch and no write.
pub open spec fn plan_is_empty(pl: PlanView) -> bool {
    pl.fetch_audio is None && pl.fetch_image is None && pl.write_lyrics is None
}

/// Which artifacts exist after a plan is carried out in full.
pub open spec fn spec_presence_after(p: ArtifactPresence, pl: PlanView) -> ArtifactPresence {
    ArtifactPresence {
        audio: p.audio || pl.fetch_audio is Some,
        cover: p.cover || pl.fetch_image is Some,
        lyrics: p.lyrics || pl.write_lyrics is Some,
    }
}

/// Decides what a request still has to fetch or write, given which
/// artifacts already exist at the derived base path.
pub fn plan_download(req: &ResourceRequest, present: ArtifactPresence) -> (r: DownloadPlan)
    ensures
        r@ == spec_plan(req@, present),
{
    let fetch_audio = if present.audio {
        None
    } else {
        match req.audio_url {
            Some(ref u) => Some(u.clone()),
            None => None,
        }
    };
    let fetch_image = if present.cover {
        None
    } else {
        match req.image_url {
            Some(ref u) => Some(u.clone()),
            None => None,
        }
    };
    let write_lyrics = if present.lyrics {
        None
    } else {
        match req.lyric_text {
            Some(ref t) => Some(t.clone()),
            None => None,
        }
    };
    let r = DownloadPlan { fetch_audio, fetch_image, write_lyrics };
    proof {
        assert(r@ =~~= spec_plan(req@, present));
    }
    r
}

/// Computes which artifacts exist once a plan has been carried out.
pub fn presence_after_plan(p: ArtifactPresence, plan: &DownloadPlan) -> (r: ArtifactPresence)
    ensures
        r == spec_presence_after(p, plan@),
{
    ArtifactPresence {
        audio: p.audio || plan.fetch_audio.is_some(),
        cover: p.cover || plan.fetch_image.is_some(),
        lyrics: p.lyrics || plan.write_lyrics.is_some(),
    }
}

/// At-most-one-write: once a request's plan has been carried out, the
/// same request against the resulting cache state plans no fetch and no
/// write at all.
pub proof fn lemma_materialize_idempotent(rq: RequestView, p: ArtifactPresence)
    ensures
        plan_is_empty(spec_plan(rq, spec_presence_after(p, spec_plan(rq, p)))),
{
}

/// The artifact paths a delete-by-id visits: every co-located kind of
/// every cached base name whose id segment is exactly `id`.
pub open spec fn spec_delete_by_id(id: Seq<char>, names: Seq<Seq<char>>) -> Seq<Seq<char>>
    decreases names.len(),
{
    if names.len() == 0 {
        Seq::empty()
    } else {
        spec_delete_by_id(id, names.drop_last()) + if name_matches_id(names.last(), id) {
            spec_delete_targets(names.last())
        } else {
            Seq::empty()
        }
    }
}

/// Lists every artifact path a delete of `id` visits, across all
/// matching cached base names. The caller attempts each removal and
/// collects the failures; deletion is best-effort.
pub fn delete_targets_by_id(id: &String, names: &Vec<String>) -> (r: Vec<String>)
    ensures
        r.deep_view() == spec_delete_by_id(id@, names.deep_view()),
{
    let mut r: Vec<String> = Vec::new();
    let mut i: usize = 0;
    proof {
        assert(names.deep_view().take(0) =~~= Seq::<Seq<char>>::empty());
        assert(r.deep_view() =~~= Seq::<Seq<char>>::empty());
    }
    while i < names.len()
        invariant
            i <= names.len(),
            names.deep_view().len() == names@.len(),
            r.deep_view() =~~= spec_delete_by_id(id@, names.deep_view().take(i as int)),
        decreases names.len() - i,
    {
        proof {
            assert(names.deep_view().take(i + 1).drop_last() =~~= names.deep_view().take(i as int));
            assert(names.deep_view().take(i + 1).last() == names.deep_view()[i as int]);
            assert(names.deep_view()[i as int] == names@[i as int]@);
        }
        let ghost old_r = r.deep_view();
        if matches_id(names[i].as_str(), id) {
            let mut targets = delete_targets(names[i].as_str());
            proof {
                assert(targets.deep_view() == spec_delete_targets(names.deep_view()[i as int]));
            }
            r.append(&mut targets);
            proof {
                assert(r.deep_view() =~~= old_r + spec_delete_targets(
                    names.deep_view()[i as int],
                ));
            }
        } else {
            proof {
                assert(r.deep_view() =~~= old_r + Seq::<Seq<char>>::empty());
            }
        }
        i = i + 1;
    }
    proof {
        assert(names.deep_view().take(names@.len() as int) =~~= names.deep_view());
    }
    r
}

} // verus!
