//! What the synchronizer asks of the container runtime: the commands, the
//! jobs that a catalog amounts to, and the commands of one push.

use crate::alias::{push_targets, push_targets_text};
use crate::naming::{
    image_name, image_name_text, image_ref, image_ref_text, target_ref, target_ref_text,
};
use crate::profile::ProfileView;
use crate::registry::{TagDescriptor, TagView};
use crate::store::ProfileStore;
use vstd::prelude::*;

verus! {

/// One invocation of the container runtime.
#[derive(Clone, Debug, PartialEq, Eq)]
pub enum Command {
    /// Pull an image.
    Pull(String),
    /// Give the image `source` the further name `target`.
    Tag { source: String, target: String },
    /// Push an image.
    Push(String),
    /// Remove a local image.
    RemoveImage(String),
}

/// What a [`Command`] stands for.
pub enum CommandView {
    Pull(Seq<char>),
    Tag { source: Seq<char>, target: Seq<char> },
    Push(Seq<char>),
    RemoveImage(Seq<char>),
}

impl DeepView for Command {
    type V = CommandView;

    open spec fn deep_view(&self) -> CommandView {
        match self {
            Command::Pull(r) => CommandView::Pull(r@),
            Command::Tag { source, target } => CommandView::Tag { source: source@, target: target@ },
            Command::Push(r) => CommandView::Push(r@),
            Command::RemoveImage(r) => CommandView::RemoveImage(r@),
        }
    }
}

/// What the engine was doing when something failed.
#[derive(Clone, Copy, Debug, PartialEq, Eq, Structural)]
pub enum Activity {
    Pull,
    Tag,
    Push,
    Remove,
    Fetch,
}

impl CommandView {
    /// What a command does.
    pub open spec fn activity(self) -> Activity {
        match self {
            CommandView::Pull(_) => Activity::Pull,
            CommandView::Tag { .. } => Activity::Tag,
            CommandView::Push(_) => Activity::Push,
            CommandView::RemoveImage(_) => Activity::Remove,
        }
    }

    /// The image reference that a command is about: for a retag, the new
    /// name.
    pub open spec fn subject(self) -> Seq<char> {
        match self {
            CommandView::Pull(r) => r,
            CommandView::Tag { source, target } => target,
            CommandView::Push(r) => r,
            CommandView::RemoveImage(r) => r,
        }
    }
}

impl Command {
    /// What the command does.
    pub fn activity(&self) -> (a: Activity)
        ensures
            a == self.deep_view().activity(),
    {
        match self {
            Command::Pull(_) => Activity::Pull,
            Command::Tag { .. } => Activity::Tag,
            Command::Push(_) => Activity::Push,
            Command::RemoveImage(_) => Activity::Remove,
        }
    }

    /// The image reference that the command is about: for a retag, the new
    /// name.
    pub fn subject(&self) -> (s: &str)
        ensures
            s@ == self.deep_view().subject(),
    {
        match self {
            Command::Pull(r) => r.as_str(),
            Command::Tag { source, target } => target.as_str(),
            Command::Push(r) => r.as_str(),
            Command::RemoveImage(r) => r.as_str(),
        }
    }
}

/// One declared tag of one tracked image.
#[derive(Clone, Debug, PartialEq, Eq)]
pub struct Job {
    pub library: Option<String>,
    pub repo: String,
    pub tag: String,
}

/// What a [`Job`] stands for.
pub struct JobView {
    pub library: Option<Seq<char>>,
    pub repo: Seq<char>,
    pub tag: Seq<char>,
}

impl DeepView for Job {
    type V = JobView;

    open spec fn deep_view(&self) -> JobView {
        JobView { library: self.library.deep_view(), repo: self.repo@, tag: self.tag@ }
    }
}

impl JobView {
    /// The canonical name of the job's image.
    pub open spec fn image(self) -> Seq<char> {
        image_name_text(self.library, self.repo)
    }

    /// The reference of the job's image as it is pulled: `<image>:<tag>`.
    pub open spec fn source(self) -> Seq<char> {
        image_ref_text(self.image(), self.tag)
    }
}

impl Job {
    /// The canonical name of the job's image.
    pub fn image(&self) -> (name: String)
        ensures
            name@ == self.deep_view().image(),
    {
        image_name(
            match &self.library {
                Some(l) => Some(l.as_str()),
                None => None,
            },
            self.repo.as_str(),
        )
    }

    /// The reference of the job's image as it is pulled: `<image>:<tag>`.
    pub fn source(&self) -> (r: String)
        ensures
            r@ == self.deep_view().source(),
    {
        let image = self.image();
        image_ref(image.as_str(), self.tag.as_str())
    }
}

/// The jobs of one profile: one for each of its tags, in their order.
pub open spec fn profile_jobs(p: ProfileView) -> Seq<JobView> {
    Seq::new(p.tags.len(), |j: int| JobView { library: p.library, repo: p.repo, tag: p.tags[j] })
}

/// The jobs of a catalog: those of each profile, profile after profile.
pub open spec fn jobs_of(catalog: Seq<ProfileView>) -> Seq<JobView>
    decreases catalog.len(),
{
    if catalog.len() == 0 {
        Seq::empty()
    } else {
        jobs_of(catalog.drop_last()) + profile_jobs(catalog.last())
    }
}

/// What is done for one push target: the pulled image is given the
/// target's name, the target is pushed, and the local image of that name is
/// removed again.
pub open spec fn target_script(source: Seq<char>, target: Seq<char>) -> Seq<CommandView> {
    seq![
        CommandView::Tag { source, target },
        CommandView::Push(target),
        CommandView::RemoveImage(target),
    ]
}

/// The commands that publish a job's image under each of `tags` on the
/// registry, tag after tag.
pub open spec fn targets_script(registry: Seq<char>, job: JobView, tags: Seq<Seq<char>>) -> Seq<
    CommandView,
>
    decreases tags.len(),
{
    if tags.len() == 0 {
        Seq::empty()
    } else {
        targets_script(registry, job, tags.drop_last()) + target_script(
            job.source(),
            target_ref_text(registry, job.image(), tags.last()),
        )
    }
}

/// The commands of the push of one job, given the listing of its image: the
/// job's tag and its aliases are published, each once.
pub open spec fn push_script(registry: Seq<char>, job: JobView, listing: Seq<TagView>) -> Seq<
    CommandView,
> {
    targets_script(registry, job, push_targets_text(listing, job.tag))
}

/// A script holds three commands for each target.
pub proof fn lemma_targets_script_len(registry: Seq<char>, job: JobView, tags: Seq<Seq<char>>)
    ensures
        targets_script(registry, job, tags).len() == 3 * tags.len(),
    decreases tags.len(),
{
    if tags.len() > 0 {
        lemma_targets_script_len(registry, job, tags.drop_last());
    }
}

/// Flattens the store into jobs.
pub fn jobs(store: &ProfileStore) -> (r: Vec<Job>)
    ensures
        r.deep_view() == jobs_of(store@),
{
    let profiles = store.list();
    let ghost catalog = store@;
    let mut r: Vec<Job> = Vec::new();
    let mut i: usize = 0;
    assert(catalog.take(0) =~= Seq::<ProfileView>::empty());
    assert(r.deep_view() =~= Seq::<JobView>::empty());
    while i < profiles.len()
        invariant
            i <= profiles.len(),
            profiles.len() == catalog.len(),
            forall|k: int| 0 <= k < profiles.len() ==> (#[trigger] profiles[k])@ == catalog[k],
            r.deep_view() == jobs_of(catalog.take(i as int)),
        decreases profiles.len() - i,
    {
        let profile = &profiles[i];
        let tags = profile.tags();
        let ghost p = catalog[i as int];
        let ghost done = r.deep_view();
        let mut j: usize = 0;
        assert(profile@ == p);
        while j < tags.len()
            invariant
                j <= tags.len(),
                profile@ == p,
                tags.deep_view() == p.tags,
                r.deep_view() == done + profile_jobs(p).take(j as int),
            decreases tags.len() - j,
        {
            let library = match profile.library() {
                Some(l) => Some(l.to_owned()),
                None => None,
            };
            let job = Job { library, repo: profile.repo().to_owned(), tag: tags[j].clone() };
            let ghost prev = r.deep_view();
            let ghost jv = job.deep_view();
            assert(jv == profile_jobs(p)[j as int]);
            r.push(job);
            assert(r.deep_view() =~= prev.push(jv));
            assert(profile_jobs(p).take(j + 1) =~= profile_jobs(p).take(j as int).push(jv));
            assert(r.deep_view() =~= done + profile_jobs(p).take(j + 1));
            j += 1;
        }
        proof {
            assert(profile_jobs(p).take(j as int) =~= profile_jobs(p));
            assert(catalog.take(i + 1).drop_last() =~= catalog.take(i as int));
            assert(catalog.take(i + 1).last() == p);
        }
        i += 1;
    }
    assert(catalog.take(i as int) =~= catalog);
    r
}

/// Builds the commands of the push of one job, given the listing of its
/// image.
pub fn push_commands(registry: &str, job: &Job, listing: &Vec<TagDescriptor>) -> (r: Vec<Command>)
    ensures
        r.deep_view() == push_script(registry@, job.deep_view(), listing.deep_view()),
{
    let tags = push_targets(listing, job.tag.as_str());
    let image = job.image();
    let ghost j = job.deep_view();
    let ghost all = tags.deep_view();
    let mut r: Vec<Command> = Vec::new();
    let mut i: usize = 0;
    assert(all.take(0) =~= Seq::<Seq<char>>::empty());
    assert(r.deep_view() =~= Seq::<CommandView>::empty());
    while i < tags.len()
        invariant
            i <= tags.len(),
            all == tags.deep_view(),
            j == job.deep_view(),
            image@ == j.image(),
            r.deep_view() == targets_script(registry@, j, all.take(i as int)),
        decreases tags.len() - i,
    {
        let ghost done = r.deep_view();
        let target = target_ref(registry, image.as_str(), tags[i].as_str());
        r.push(Command::Tag { source: job.source(), target: target.clone() });
        r.push(Command::Push(target.clone()));
        r.push(Command::RemoveImage(target));
        proof {
            assert(all.take(i + 1).drop_last() =~= all.take(i as int));
            assert(all.take(i + 1).last() == all[i as int]);
            assert(r.deep_view() =~= done + target_script(
                j.source(),
                target_ref_text(registry@, j.image(), all[i as int]),
            ));
        }
        i += 1;
    }
    assert(all.take(i as int) =~= all);
    r
}

} // verus!
