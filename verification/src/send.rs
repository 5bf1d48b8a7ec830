//! Sending through the Messages app: what to run, and what to do with the answers.
use crate::text::{
    after_last, cat2, chars_of, contains, find_after_last, find_from, lemma_after_last, lemma_position_from, opt, piece,
    position, str_has, string_of, trim, trim_end, trim_str, trimmed_end, views, Class,
};
use crate::wire::{SendRequest, SendRequestV, SendResponse, SendResponseV};
use vstd::prelude::*;

verus! {

// ----- scripts -----

/// The id of a chat in AppleScript: the service before the first semicolon becomes `any`.
pub open spec fn script_id(guid: Seq<char>) -> Seq<char> {
    let i = position(guid, ';');
    if i < guid.len() {
        "any"@ + guid.skip(i)
    } else {
        guid
    }
}

/// AppleScript chat ids use the `any;` service prefix regardless of what the DB stored.
pub fn applescript_chat_id(guid: &str) -> (r: String)
    ensures
        r@ == script_id(guid@),
{
    let v: Vec<char> = chars_of(guid);
    let i: usize = find_from(&v, ';', 0);
    if i < v.len() {
        let rest: Vec<char> = piece(&v, i, v.len());
        assert(rest@ =~= guid@.skip(i as int));
        cat2("any", string_of(&rest).as_str())
    } else {
        guid.to_owned()
    }
}

/// The id of a chat does not depend on the service under which it is stored.
pub proof fn service_does_not_matter(a: Seq<char>, b: Seq<char>, rest: Seq<char>)
    requires
        !a.contains(';'),
        !b.contains(';'),
    ensures
        script_id(a + seq![';'] + rest) == script_id(b + seq![';'] + rest),
{
    lemma_first_semicolon(a, rest);
    lemma_first_semicolon(b, rest);
    assert((a + seq![';'] + rest).skip(a.len() as int) =~= seq![';'] + rest);
    assert((b + seq![';'] + rest).skip(b.len() as int) =~= seq![';'] + rest);
}

proof fn lemma_first_semicolon(a: Seq<char>, rest: Seq<char>)
    requires
        !a.contains(';'),
    ensures
        position(a + seq![';'] + rest, ';') == a.len(),
{
    let s = a + seq![';'] + rest;
    lemma_position_from(s, ';', 0);
    let p = position(s, ';');
    assert(s[a.len() as int] == ';');
    if p < a.len() {
        assert(a[p] == ';');
    }
    if p > a.len() {
        assert(s[a.len() as int] != ';');
    }
}

/// What a run of the script came to: an error says what the script complained of.
pub fn script_result(success: bool, complaint: &str) -> (r: Result<(), String>)
    ensures
        r is Ok <==> success,
        r matches Err(e) ==> e@ == "osascript failed: "@ + trim(complaint@),
{
    if success {
        Ok(())
    } else {
        Err(cat2("osascript failed: ", trim_str(complaint).as_str()))
    }
}

// ----- to whom -----

/// To whom something is sent.
#[derive(Debug)]
pub enum Destination {
    /// A chat by its guid.
    Chat(String),
    /// A phone number or an email address.
    Address(String),
}

/// The contents of a `Destination`.
#[verifier::ext_equal]
pub enum DestinationV {
    Chat(Seq<char>),
    Address(Seq<char>),
}

impl View for Destination {
    type V = DestinationV;

    open spec fn view(&self) -> DestinationV {
        match *self {
            Destination::Chat(g) => DestinationV::Chat(g@),
            Destination::Address(a) => DestinationV::Address(a@),
        }
    }
}

/// An answer that something was not sent.
pub open spec fn refusal(detail: Seq<char>) -> SendResponseV {
    SendResponseV { ok: false, detail: Some(detail) }
}

/// An answer that something was not sent.
pub fn refuse(detail: &str) -> (r: SendResponse)
    ensures
        r@ == refusal(detail@),
{
    SendResponse { ok: false, detail: Some(detail.to_owned()) }
}

/// The chat that a request names.
pub open spec fn named_chat(r: SendRequestV) -> Option<Seq<char>> {
    match r.chat_guid {
        Some(g) => if g.len() > 0 {
            Some(g)
        } else {
            None
        },
        None => None,
    }
}

/// A request names a chat, so that no chat need be looked up for its addresses.
pub fn names_chat(req: &SendRequest) -> (r: bool)
    ensures
        r == (named_chat(req@) is Some),
{
    match &req.chat_guid {
        Some(g) => !g.as_str().is_empty(),
        None => false,
    }
}

/// To whom a request goes, given the chat that was found for its addresses: the chat that it
/// names, else the one found, else the one address that it has.
pub open spec fn destination_of(r: SendRequestV, found: Option<Seq<char>>) -> Result<DestinationV, SendResponseV> {
    match named_chat(r) {
        Some(g) => Ok(DestinationV::Chat(g)),
        None => if r.to.len() == 0 {
            Err(refusal("chat_guid or to[] required"@))
        } else {
            match found {
                Some(g) => Ok(DestinationV::Chat(g)),
                None => if r.to.len() == 1 {
                    Ok(DestinationV::Address(r.to[0]))
                } else {
                    Err(refusal("new group chats must be started from Messages.app first"@))
                },
            }
        },
    }
}

/// To whom a request goes, given the chat that was found for its addresses.
pub fn resolve_destination(req: &SendRequest, found: Option<String>) -> (r: Result<Destination, SendResponse>)
    ensures
        r is Ok <==> destination_of(req@, opt(found)) is Ok,
        r matches Ok(d) ==> Ok::<DestinationV, SendResponseV>(d@) == destination_of(req@, opt(found)),
        r matches Err(e) ==> Err::<DestinationV, SendResponseV>(e@) == destination_of(req@, opt(found)),
{
    if let Some(g) = &req.chat_guid {
        if !g.as_str().is_empty() {
            return Ok(Destination::Chat(g.clone()));
        }
    }
    assert(views(req.to@).len() == req.to@.len());
    if req.to.len() == 0 {
        return Err(refuse("chat_guid or to[] required"));
    }
    match found {
        Some(g) => Ok(Destination::Chat(g)),
        None => if req.to.len() == 1 {
            assert(views(req.to@)[0] == req.to@[0]@);
            Ok(Destination::Address(req.to[0].clone()))
        } else {
            Err(refuse("new group chats must be started from Messages.app first"))
        },
    }
}

/// The address to fall back to where a chat between two is out of reach of scripts: what stands
/// after the last semicolon of its guid.
pub open spec fn fallback_of(d: DestinationV) -> Option<Seq<char>> {
    match d {
        DestinationV::Chat(g) => if contains(g, ";-;"@) {
            Some(g.skip(after_last(g, ';')))
        } else {
            None
        },
        DestinationV::Address(_) => None,
    }
}

fn fallback_address(d: &Destination) -> (r: Option<String>)
    ensures
        opt(r) == fallback_of(d@),
{
    match d {
        Destination::Chat(g) => if str_has(g.as_str(), ";-;") {
            let v: Vec<char> = chars_of(g.as_str());
            let start: usize = find_after_last(&v, ';');
            proof {
                lemma_after_last(v@, ';');
            }
            let tail: Vec<char> = piece(&v, start, v.len());
            assert(tail@ =~= v@.skip(start as int));
            Some(string_of(&tail))
        } else {
            None
        },
        Destination::Address(_) => None,
    }
}

// ----- what -----

/// A file that a request names, and whether it is there.
#[derive(Debug)]
pub struct NamedFile {
    pub path: String,
    pub is_there: bool,
}

/// The files that were found for uploads.
pub open spec fn found_files(uploads: Seq<Option<String>>) -> Seq<Seq<char>>
    decreases uploads.len(),
{
    if uploads.len() == 0 {
        Seq::empty()
    } else {
        match uploads.last() {
            Some(p) => found_files(uploads.drop_last()).push(p@),
            None => found_files(uploads.drop_last()),
        }
    }
}

/// The first named file that is not there, from `i` on.
pub open spec fn first_missing(paths: Seq<NamedFile>, i: int) -> Option<int>
    decreases paths.len() - i,
{
    if i < 0 || i >= paths.len() {
        None
    } else if !paths[i].is_there {
        Some(i)
    } else {
        first_missing(paths, i + 1)
    }
}

/// The files to send: those found for uploads, then those named, unless one of these is missing.
pub open spec fn files_of(uploads: Seq<Option<String>>, paths: Seq<NamedFile>) -> Result<Seq<Seq<char>>, SendResponseV> {
    match first_missing(paths, 0) {
        Some(i) => Err(refusal("no such file: "@ + paths[i].path@)),
        None => Ok(found_files(uploads) + Seq::new(paths.len(), |i: int| paths[i].path@)),
    }
}

fn collect_files(uploads: &Vec<Option<String>>, paths: &Vec<NamedFile>) -> (r: Result<Vec<String>, SendResponse>)
    ensures
        r is Ok <==> files_of(uploads@, paths@) is Ok,
        r matches Ok(v) ==> Ok::<Seq<Seq<char>>, SendResponseV>(views(v@)) == files_of(uploads@, paths@),
        r matches Err(e) ==> Err::<Seq<Seq<char>>, SendResponseV>(e@) == files_of(uploads@, paths@),
{
    let mut out: Vec<String> = Vec::new();
    let mut i: usize = 0;
    assert(uploads@.take(0) =~= Seq::<Option<String>>::empty());
    assert(views(out@) =~= found_files(uploads@.take(0)));
    while i < uploads.len()
        invariant
            i <= uploads.len(),
            views(out@) == found_files(uploads@.take(i as int)),
        decreases uploads.len() - i,
    {
        assert(uploads@.take(i + 1).drop_last() =~= uploads@.take(i as int));
        assert(uploads@.take(i + 1).last() == uploads@[i as int]);
        if let Some(p) = &uploads[i] {
            let ghost before = views(out@);
            out.push(p.clone());
            assert(views(out@) =~= before.push(p@));
        }
        i += 1;
    }
    assert(uploads@.take(i as int) =~= uploads@);
    let ghost head = views(out@);
    let ghost names = Seq::new(paths@.len(), |i: int| paths@[i].path@);
    let mut j: usize = 0;
    assert(views(out@) =~= head + names.take(0));
    while j < paths.len()
        invariant
            j <= paths.len(),
            head == found_files(uploads@),
            names == Seq::new(paths@.len(), |i: int| paths@[i].path@),
            views(out@) == head + names.take(j as int),
            first_missing(paths@, 0) == first_missing(paths@, j as int),
        decreases paths.len() - j,
    {
        if !paths[j].is_there {
            return Err(refuse(cat2("no such file: ", paths[j].path.as_str()).as_str()));
        }
        let ghost before = views(out@);
        out.push(paths[j].path.clone());
        assert(views(out@) =~= before.push(names[j as int]));
        assert(views(out@) =~= head + names.take(j + 1));
        j += 1;
    }
    assert(names.take(j as int) =~= names);
    Ok(out)
}

/// The text to send: without line feeds at its end, and none where nothing is left.
pub open spec fn text_of(t: Option<Seq<char>>) -> Option<Seq<char>> {
    match t {
        Some(t) => {
            let s = trim_end(t, Class::Only('\n'));
            if s.len() > 0 {
                Some(s)
            } else {
                None
            }
        },
        None => None,
    }
}

fn request_text(t: &Option<String>) -> (r: Option<String>)
    ensures
        opt(r) == text_of(opt(*t)),
{
    match t {
        Some(t) => {
            let v: Vec<char> = trimmed_end(&chars_of(t.as_str()), Class::Only('\n'));
            if v.len() > 0 {
                Some(string_of(&v))
            } else {
                None
            }
        },
        None => None,
    }
}

/// Something to send: a file by its path, or a text.
#[derive(Debug)]
pub struct Job {
    pub payload: String,
    pub is_file: bool,
}

/// The contents of a `Job`.
#[verifier::ext_equal]
pub struct JobV {
    pub payload: Seq<char>,
    pub is_file: bool,
}

impl View for Job {
    type V = JobV;

    open spec fn view(&self) -> JobV {
        JobV { payload: self.payload@, is_file: self.is_file }
    }
}

/// Files, then the text.
pub open spec fn jobs_of(files: Seq<Seq<char>>, text: Option<Seq<char>>) -> Seq<JobV> {
    Seq::new(files.len(), |i: int| JobV { payload: files[i], is_file: true }) + (match text {
        Some(t) => seq![JobV { payload: t, is_file: false }],
        None => Seq::empty(),
    })
}

fn make_jobs(files: Vec<String>, text: Option<String>) -> (r: Vec<Job>)
    ensures
        views(r@) == jobs_of(views(files@), opt(text)),
{
    let ghost fs = views(files@);
    let mut out: Vec<Job> = Vec::new();
    let mut i: usize = 0;
    while i < files.len()
        invariant
            i <= files.len(),
            fs == views(files@),
            out@.len() == i,
            forall|k: int| 0 <= k < i ==> #[trigger] out@[k]@ == (JobV { payload: fs[k], is_file: true }),
        decreases files.len() - i,
    {
        assert(fs[i as int] == files@[i as int]@);
        out.push(Job { payload: files[i].clone(), is_file: true });
        i += 1;
    }
    if let Some(t) = text {
        out.push(Job { payload: t, is_file: false });
    }
    assert(views(out@) =~= jobs_of(fs, opt(text)));
    out
}

// ----- doing it -----

/// Messages on their way.
#[derive(Debug)]
pub struct Outgoing {
    pub dest: Destination,
    /// The address to try where scripts cannot reach the chat.
    pub fallback: Option<String>,
    pub jobs: Vec<Job>,
    /// How many jobs are done.
    pub done: usize,
    /// The next job is tried at the fallback address.
    pub retry: bool,
    /// What went wrong.
    pub failed: Option<String>,
}

/// The contents of an `Outgoing`.
#[verifier::ext_equal]
pub struct OutgoingV {
    pub dest: DestinationV,
    pub fallback: Option<Seq<char>>,
    pub jobs: Seq<JobV>,
    pub done: usize,
    pub retry: bool,
    pub failed: Option<Seq<char>>,
}

impl View for Outgoing {
    type V = OutgoingV;

    open spec fn view(&self) -> OutgoingV {
        OutgoingV {
            dest: self.dest@,
            fallback: opt(self.fallback),
            jobs: views(self.jobs@),
            done: self.done,
            retry: self.retry,
            failed: opt(self.failed),
        }
    }
}

/// What a request comes to, given to whom it goes and which files were found.
pub open spec fn planned(
    r: SendRequestV,
    dest: DestinationV,
    uploads: Seq<Option<String>>,
    paths: Seq<NamedFile>,
) -> Result<OutgoingV, SendResponseV> {
    match files_of(uploads, paths) {
        Err(e) => Err(e),
        Ok(files) => {
            let jobs = jobs_of(files, text_of(r.text));
            if jobs.len() == 0 {
                Err(refusal("nothing to send"@))
            } else {
                Ok(OutgoingV { dest, fallback: fallback_of(dest), jobs, done: 0, retry: false, failed: None })
            }
        },
    }
}

/// What a request comes to, given to whom it goes and which files were found.
pub fn plan_send(
    req: &SendRequest,
    dest: Destination,
    uploads: &Vec<Option<String>>,
    paths: &Vec<NamedFile>,
) -> (r: Result<Outgoing, SendResponse>)
    ensures
        r is Ok <==> planned(req@, dest@, uploads@, paths@) is Ok,
        r matches Ok(o) ==> Ok::<OutgoingV, SendResponseV>(o@) == planned(req@, dest@, uploads@, paths@),
        r matches Err(e) ==> Err::<OutgoingV, SendResponseV>(e@) == planned(req@, dest@, uploads@, paths@),
{
    let files: Vec<String> = match collect_files(uploads, paths) {
        Ok(f) => f,
        Err(e) => {
            return Err(e);
        },
    };
    let jobs: Vec<Job> = make_jobs(files, request_text(&req.text));
    assert(views(jobs@).len() == jobs@.len());
    if jobs.len() == 0 {
        return Err(refuse("nothing to send"));
    }
    let fallback: Option<String> = fallback_address(&dest);
    Ok(Outgoing { dest, fallback, jobs, done: 0, retry: false, failed: None })
}

/// What to do next.
#[derive(Debug)]
pub enum Step {
    /// Run the script with these arguments.
    Run(Vec<String>),
    /// Answer the request.
    Answer(SendResponse),
}

/// The arguments of the script for a job.
pub open spec fn script_args(o: OutgoingV, j: JobV) -> Seq<Seq<char>> {
    let what = if j.is_file {
        "file"@
    } else {
        "text"@
    };
    if o.retry && o.fallback is Some {
        seq!["participant"@, o.fallback->0, j.payload, what]
    } else {
        match o.dest {
            DestinationV::Chat(g) => seq!["chat"@, script_id(g), j.payload, what],
            DestinationV::Address(a) => seq!["participant"@, a, j.payload, what],
        }
    }
}

/// The script could not find the chat.
pub open spec fn is_unscriptable(e: Seq<char>) -> bool {
    contains(e, "Can’t get chat id"@) || contains(e, "Can't get chat id"@)
}

/// What there is to do once a job was tried: with the next one, with the same at the fallback
/// address where the chat was out of reach, or nothing more.
pub open spec fn after_try(o: OutgoingV, error: Option<Seq<char>>) -> OutgoingV {
    match error {
        None => OutgoingV { done: (o.done + 1) as usize, retry: false, ..o },
        Some(e) => if !o.retry && o.fallback is Some && is_unscriptable(e) {
            OutgoingV { retry: true, ..o }
        } else {
            OutgoingV { failed: Some(e), ..o }
        },
    }
}

/// The script is to be run for the next job.
pub open spec fn is_open(o: OutgoingV) -> bool {
    o.failed is None && o.done < o.jobs.len()
}

fn args4(a: &str, b: String, c: String, d: &str) -> (r: Vec<String>)
    ensures
        views(r@) == seq![a@, b@, c@, d@],
{
    let ghost bv = b@;
    let ghost cv = c@;
    let mut out: Vec<String> = Vec::new();
    out.push(a.to_owned());
    out.push(b);
    out.push(c);
    out.push(d.to_owned());
    assert(views(out@) =~= seq![a@, bv, cv, d@]);
    out
}

impl Outgoing {
    /// What to do next: run the script for the next job, or answer.
    pub fn next_step(&self) -> (r: Step)
        ensures
            is_open(self@) ==> (r matches Step::Run(args) && views(args@) == script_args(
                self@,
                self@.jobs[self.done as int],
            )),
            self@.failed matches Some(e) ==> (r matches Step::Answer(resp) && resp@ == refusal(e)),
            self@.failed is None && self@.done >= self@.jobs.len() ==> (r matches Step::Answer(resp) && resp@ == (
            SendResponseV { ok: true, detail: None })),
    {
        if let Some(e) = &self.failed {
            return Step::Answer(refuse(e.as_str()));
        }
        assert(views(self.jobs@).len() == self.jobs@.len());
        if self.done >= self.jobs.len() {
            return Step::Answer(SendResponse { ok: true, detail: None });
        }
        let job: &Job = &self.jobs[self.done];
        assert(self@.jobs[self.done as int] == job@);
        let what: &str = if job.is_file { "file" } else { "text" };
        if self.retry {
            if let Some(a) = &self.fallback {
                return Step::Run(args4("participant", a.clone(), job.payload.clone(), what));
            }
        }
        Step::Run(
            match &self.dest {
                Destination::Chat(g) => {
                    args4("chat", applescript_chat_id(g.as_str()), job.payload.clone(), what)
                },
                Destination::Address(a) => args4("participant", a.clone(), job.payload.clone(), what),
            },
        )
    }

    /// Take in how the run of the script went.
    pub fn tried(&mut self, result: Result<(), String>)
        requires
            is_open(old(self)@),
        ensures
            final(self)@ == after_try(
                old(self)@,
                match result {
                    Ok(_) => None,
                    Err(e) => Some(e@),
                },
            ),
    {
        assert(views(self.jobs@).len() == self.jobs@.len());
        match result {
            Ok(_) => {
                assert(self.done < self.jobs.len());
                self.done = self.done + 1;
                self.retry = false;
            },
            Err(e) => {
                let reach: bool = str_has(e.as_str(), "Can’t get chat id") || str_has(e.as_str(), "Can't get chat id");
                if !self.retry && self.fallback.is_some() && reach {
                    self.retry = true;
                } else {
                    self.failed = Some(e);
                }
            },
        }
    }
}

/// What there is to do once several runs went as told.
pub open spec fn after_tries(o: OutgoingV, errors: Seq<Option<Seq<char>>>) -> OutgoingV
    decreases errors.len(),
{
    if errors.len() == 0 {
        o
    } else {
        let before = after_tries(o, errors.drop_last());
        if is_open(before) {
            after_try(before, errors.last())
        } else {
            before
        }
    }
}

/// A success is answered only when a run went without an error for each job. The jobs and to whom
/// they go stay what they were.
pub proof fn success_means_all_sent(o: OutgoingV, errors: Seq<Option<Seq<char>>>)
    requires
        o.failed is None,
        o.done <= o.jobs.len() <= usize::MAX,
    ensures
        after_tries(o, errors).jobs == o.jobs,
        after_tries(o, errors).dest == o.dest,
        after_tries(o, errors).done <= o.jobs.len(),
        after_tries(o, errors).done - o.done <= successes(errors),
        after_tries(o, errors).failed is None && after_tries(o, errors).done >= o.jobs.len() ==> successes(errors)
            >= o.jobs.len() - o.done,
    decreases errors.len(),
{
    if errors.len() > 0 {
        success_means_all_sent(o, errors.drop_last());
    }
}

/// How many runs went without an error.
pub open spec fn successes(errors: Seq<Option<Seq<char>>>) -> nat
    decreases errors.len(),
{
    if errors.len() == 0 {
        0
    } else {
        successes(errors.drop_last()) + (if errors.last() is None {
            1nat
        } else {
            0nat
        })
    }
}

/// A job is tried at the fallback address at most once: an error there is final.
pub proof fn one_retry(o: OutgoingV, e: Seq<char>)
    requires
        o.retry,
    ensures
        after_try(o, Some(e)).failed == Some(e),
{
}

} // verus!
