//! A job: its state, its range map and its configuration, and the phases
//! that it goes through.
//!
//! A job is made by its builder. `preprocess` takes in what the probe
//! learned and plans the ranges, `pending` names the ranges to fetch,
//! `settle` takes in how the fetches went, and `postprocess` plans the
//! assembly. The requests, the files and the tasks are the caller's.

use vstd::prelude::*;
use crate::assembly::{assembly_plan, is_assembly, unfinished_index, unfinished_text, AssemblyPlan};
use crate::headers::{
    entry_texts, lemma_with_header_texts, names_distinct, set_header, with_header, with_pairs,
};
use crate::paths::{join_path, joined};
use crate::planner::{
    is_fresh, is_lower_hex, is_plan, is_range_id, lengths, new_range_id, spans_of, sum, Span,
    MAX_CONNECTIONS,
};
use crate::strategy::{
    after_probe, apply_probe, first_error, ids_distinct, law_distinct_plan_is_stored_whole,
    not_started, pending_pieces, plan_for_probe, put_all, reconcile, settled, splits,
    store_pieces, TaskOutcome,
};
use crate::text::{chars_of, string_of, text_of, texts_of};
use crate::types::{
    AuthenticationInfo, DownloadError, DownloaderState, HeaderData, HeaderEntry, Piece,
    ProbeResult, ProxyInfo,
};

verus! {

/// A job that fetches one resource over several connections.
#[derive(Debug)]
pub struct MultipartDownloadStrategy {
    pub state: DownloaderState,
    /// The range map: no id twice.
    pub segments: Vec<Piece>,
    /// The most ranges that are fetched at once.
    pub connections: usize,
}

/// Configures a job step by step.
#[derive(Debug)]
pub struct MultipartDownloadStrategyBuilder {
    pub strategy: MultipartDownloadStrategy,
}

/// The entries after each of `more` has been set, in order.
pub open spec fn with_headers_all(entries: Seq<HeaderEntry>, more: Seq<HeaderEntry>) -> Seq<
    HeaderEntry,
>
    decreases more.len(),
{
    if more.len() == 0 {
        entries
    } else {
        with_header(
            with_headers_all(entries, more.drop_last()),
            more.last().name,
            more.last().values,
        )
    }
}

fn copy_values(values: &Vec<String>) -> (copy: Vec<String>)
    ensures
        copy@ == values@,
{
    let mut copy: Vec<String> = Vec::new();
    let mut i: usize = 0;
    while i < values.len()
        invariant
            i <= values.len(),
            copy@ == values@.take(i as int),
        decreases values.len() - i,
    {
        copy.push(values[i].clone());
        i = i + 1;
        assert(values@.take(i as int) =~= values@.take(i - 1).push(values@[i - 1]));
    }
    assert(values@.take(values.len() as int) =~= values@);
    copy
}

fn copy_entries(entries: &Vec<HeaderEntry>) -> (copy: Vec<HeaderEntry>)
    ensures
        entry_texts(copy@) == entry_texts(entries@),
        names_distinct(entries@) ==> names_distinct(copy@),
{
    let mut copy: Vec<HeaderEntry> = Vec::new();
    let mut i: usize = 0;
    while i < entries.len()
        invariant
            i <= entries.len(),
            copy.len() == i,
            entry_texts(copy@) == entry_texts(entries@.take(i as int)),
        decreases entries.len() - i,
    {
        let ghost earlier = copy@;
        let entry = HeaderEntry {
            name: entries[i].name.clone(),
            values: copy_values(&entries[i].values),
        };
        copy.push(entry);
        i = i + 1;
        assert(entries@.take(i as int) =~= entries@.take(i - 1).push(entries@[i - 1]));
        assert(texts_of(entry.values@) =~= texts_of(entries@[i - 1].values@));
        assert(entry_texts(copy@) =~= entry_texts(earlier).push(
            (entry.name@, texts_of(entry.values@)),
        ));
        assert(entry_texts(entries@.take(i as int)) =~= entry_texts(entries@.take(i - 1)).push(
            (entries@[i - 1].name@, texts_of(entries@[i - 1].values@)),
        ));
    }
    assert(entries@.take(entries.len() as int) =~= entries@);
    proof {
        if names_distinct(entries@) {
            assert forall|a: int, b: int|
                0 <= a < copy.len() && 0 <= b < copy.len() && a != b implies (
            #[trigger] copy[a]).name@ != (#[trigger] copy[b]).name@ by {
                assert(entry_texts(copy@)[a].0 == entry_texts(entries@)[a].0);
                assert(entry_texts(copy@)[b].0 == entry_texts(entries@)[b].0);
            }
        }
    }
    copy
}

fn copy_text(value: &Option<String>) -> (copy: Option<String>)
    ensures
        copy == *value,
{
    match value {
        Some(s) => Some(s.clone()),
        None => None,
    }
}

fn copy_auth(value: &Option<AuthenticationInfo>) -> (copy: Option<AuthenticationInfo>)
    ensures
        copy == *value,
{
    match value {
        Some(a) => Some(
            AuthenticationInfo { username: a.username.clone(), password: a.password.clone() },
        ),
        None => None,
    }
}

fn copy_proxy(value: &Option<ProxyInfo>) -> (copy: Option<ProxyInfo>)
    ensures
        copy == *value,
{
    match value {
        Some(p) => Some(
            ProxyInfo {
                host: p.host.clone(),
                port: p.port,
                username: copy_text(&p.username),
                password: copy_text(&p.password),
            },
        ),
        None => None,
    }
}

/// Whether `data` is the header bundle of the job state `state`.
pub open spec fn is_header_data(state: DownloaderState, data: HeaderData) -> bool {
    &&& data.url == state.url
    &&& entry_texts(data.headers@) == entry_texts(state.headers@)
    &&& data.cookies == state.cookies
    &&& data.authentication == state.authentication
    &&& data.proxy == state.proxy
}

/// The header bundle that every request of the job carries, copied from
/// the job state.
pub fn build_header_data(state: &DownloaderState) -> (data: HeaderData)
    ensures
        is_header_data(*state, data),
{
    HeaderData {
        url: state.url.clone(),
        headers: copy_entries(&state.headers),
        cookies: copy_text(&state.cookies),
        authentication: copy_auth(&state.authentication),
        proxy: copy_proxy(&state.proxy),
    }
}

/// The path of the scratch file of the range `id` in the scratch directory
/// `temp_dir`.
pub fn scratch_path(temp_dir: &str, id: &str) -> (path: String)
    ensures
        path@ == joined(temp_dir@, id@),
{
    string_of(&join_path(&chars_of(temp_dir), &chars_of(id)))
}

/// Scratch files stay in the scratch directory. The path of the scratch
/// file of a range with a well-shaped id is the scratch directory, one
/// separator where the directory does not end in one, and the id, which
/// holds no separator.
pub proof fn law_scratch_file_is_inside(temp_dir: Seq<char>, id: Seq<char>)
    requires
        is_range_id(id),
    ensures
        forall|i: int| 0 <= i < id.len() ==> #[trigger] id[i] != '/',
        joined(temp_dir, id) == if temp_dir.len() > 0 && temp_dir.last() != '/' {
            temp_dir.push('/') + id
        } else {
            temp_dir + id
        },
{
    assert forall|i: int| 0 <= i < id.len() implies #[trigger] id[i] != '/' by {
        if i == 8 || i == 13 || i == 18 || i == 23 {
            assert(id[i] == '-');
        } else {
            assert(is_lower_hex(id[i]));
        }
    }
    assert(id[0] != '/');
}

impl MultipartDownloadStrategy {
    /// The invariant of a job: no range id twice, no header name twice.
    pub open spec fn wf(self) -> bool {
        &&& ids_distinct(self.segments@)
        &&& names_distinct(self.state.headers@)
    }

    /// What a job is when it is made: it has an id of its own, which names
    /// its scratch directory under the root, it knows its address and its
    /// output path, and nothing else is set or known yet.
    pub open spec fn is_new(self, url: String, output_path: String, temp_root: Seq<char>) -> bool {
        &&& self.wf()
        &&& is_range_id(self.state.id@)
        &&& self.state.url == url
        &&& self.state.output_path == Some(output_path)
        &&& self.state.temp_dir@ == joined(temp_root, self.state.id@)
        &&& self.state.file_size == -1
        &&& self.state.headers@ == Seq::<HeaderEntry>::empty()
        &&& self.state.cookies is None
        &&& self.state.authentication is None
        &&& self.state.proxy is None
        &&& !self.state.convert_to_mp3
        &&& self.state.last_modified is None
        &&& !self.state.resumable
        &&& self.state.attachment_name is None
        &&& self.state.content_type is None
        &&& self.segments@ == Seq::<Piece>::empty()
        &&& self.connections == MAX_CONNECTIONS
    }

    /// A job for the resource at `url`, to be written to `output_path`,
    /// with its scratch directory under `temp_root`. The job gets an id of
    /// its own, which also names its scratch directory.
    pub fn new(url: String, output_path: String, temp_root: &str) -> (job: MultipartDownloadStrategy)
        ensures
            job.is_new(url, output_path, temp_root@),
    {
        let id = new_range_id();
        let temp_dir = string_of(&join_path(&chars_of(temp_root), &chars_of(id.as_str())));
        MultipartDownloadStrategy {
            state: DownloaderState {
                id,
                url,
                output_path: Some(output_path),
                temp_dir,
                file_size: -1,
                headers: Vec::new(),
                cookies: None,
                authentication: None,
                proxy: None,
                convert_to_mp3: false,
                last_modified: None,
                resumable: false,
                attachment_name: None,
                content_type: None,
            },
            segments: Vec::new(),
            connections: MAX_CONNECTIONS,
        }
    }

    /// A builder for a job; see `new`.
    pub fn builder(url: String, output_path: String, temp_root: &str) -> (builder:
        MultipartDownloadStrategyBuilder)
        ensures
            builder.strategy.is_new(url, output_path, temp_root@),
    {
        MultipartDownloadStrategyBuilder::new(url, output_path, temp_root)
    }

    /// The scratch directory of the job.
    pub fn temp_dir(&self) -> (dir: String)
        ensures
            dir == self.state.temp_dir,
    {
        self.state.temp_dir.clone()
    }

    /// The state of the job.
    pub fn state(&self) -> (state: &DownloaderState)
        ensures
            *state == self.state,
    {
        &self.state
    }

    /// The range map of the job.
    pub fn segments(&self) -> (segments: &Vec<Piece>)
        ensures
            *segments == self.segments,
    {
        &self.segments
    }

    /// Takes in what the probe learned and plans the ranges: the job state
    /// is brought up to date, and the range map is replaced by the new
    /// plan.
    pub fn preprocess(&mut self, probe: ProbeResult)
        ensures
            ids_distinct(final(self).segments@),
            final(self).state == after_probe(old(self).state, probe),
            final(self).connections == old(self).connections,
            exists|pieces: Seq<Piece>|
                {
                    &&& #[trigger] put_all(Seq::empty(), pieces) == final(self).segments@
                    &&& forall|i: int| 0 <= i < pieces.len() ==> is_fresh(#[trigger] pieces[i])
                    &&& splits(probe.resumable, probe.resource_size) ==> is_plan(
                        spans_of(pieces),
                        probe.resource_size->0 as int,
                        old(self).connections as int,
                    )
                    &&& !splits(probe.resumable, probe.resource_size) ==> spans_of(pieces) == seq![
                        Span { offset: 0, length: -1i64 },
                    ]
                },
    {
        let pieces = plan_for_probe(probe.resumable, probe.resource_size, self.connections);
        apply_probe(&mut self.state, probe);
        let ghost planned = pieces@;
        store_pieces(&mut self.segments, pieces);
        assert(put_all(Seq::empty(), planned) == self.segments@);
    }

    /// The ranges that a download launches.
    pub fn pending(&self) -> (pending: Vec<Piece>)
        ensures
            pending@ == not_started(self.segments@),
    {
        pending_pieces(&self.segments)
    }

    /// Takes the outcomes of the fetches into the range map and says how
    /// the download went.
    pub fn settle(&mut self, outcomes: &Vec<TaskOutcome>) -> (result: Result<(), DownloadError>)
        ensures
            ids_distinct(old(self).segments@) ==> ids_distinct(final(self).segments@),
            final(self).state == old(self).state,
            final(self).connections == old(self).connections,
            final(self).segments@ == settled(old(self).segments@, outcomes@),
            result == match first_error(outcomes@) {
                Some(error) => Err::<(), DownloadError>(error),
                None => Ok(()),
            },
    {
        reconcile(&mut self.segments, outcomes)
    }

    /// Plans the assembly of the job, which every range must be finished
    /// for.
    pub fn postprocess(&self) -> (result: Result<AssemblyPlan, DownloadError>)
        ensures
            match result {
                Ok(plan) => unfinished_index(self.segments@) == self.segments.len() && is_assembly(
                    self.segments@,
                    self.state,
                    plan,
                ),
                Err(error) => unfinished_index(self.segments@) < self.segments.len()
                    && error is PieceFailed && error->PieceFailed_0@ == unfinished_text(
                    self.segments[unfinished_index(self.segments@)],
                ),
            },
    {
        assembly_plan(&self.segments, &self.state)
    }
}

impl MultipartDownloadStrategyBuilder {
    /// Begins the configuration of a job; see `MultipartDownloadStrategy::new`.
    pub fn new(url: String, output_path: String, temp_root: &str) -> (builder:
        MultipartDownloadStrategyBuilder)
        ensures
            builder.strategy.is_new(url, output_path, temp_root@),
    {
        MultipartDownloadStrategyBuilder {
            strategy: MultipartDownloadStrategy::new(url, output_path, temp_root),
        }
    }

    /// Sets the value of the `Cookie` header.
    pub fn with_cookies(self, cookies: String) -> (builder: MultipartDownloadStrategyBuilder)
        ensures
            builder.strategy == (MultipartDownloadStrategy {
                state: DownloaderState { cookies: Some(cookies), ..self.strategy.state },
                ..self.strategy
            }),
    {
        let mut builder = self;
        builder.strategy.state.cookies = Some(cookies);
        builder
    }

    /// Sets the extra headers, in place of any that were set. Where a name
    /// comes twice, the later entry counts.
    pub fn with_headers(self, headers: Vec<HeaderEntry>) -> (builder:
        MultipartDownloadStrategyBuilder)
        ensures
            builder.strategy.state.headers@ == with_headers_all(Seq::empty(), headers@),
            names_distinct(builder.strategy.state.headers@),
            builder.strategy.segments == self.strategy.segments,
            builder.strategy.connections == self.strategy.connections,
            builder.strategy.state == (DownloaderState {
                headers: builder.strategy.state.headers,
                ..self.strategy.state
            }),
    {
        let mut builder = self;
        let mut fresh: Vec<HeaderEntry> = Vec::new();
        let mut rest = headers;
        assert(headers@.skip(0) =~= headers@);
        assert(headers@.take(0) =~= Seq::<HeaderEntry>::empty());
        while rest.len() > 0
            invariant
                rest.len() <= headers.len(),
                rest@ == headers@.skip(headers.len() - rest.len()),
                fresh@ == with_headers_all(Seq::empty(), headers@.take(headers.len() - rest.len())),
                names_distinct(fresh@),
            decreases rest.len(),
        {
            let ghost done = headers.len() - rest.len();
            let entry = rest.remove(0);
            assert(entry == headers@[done]);
            assert(rest@ =~= headers@.skip(done + 1));
            assert(headers@.take(done + 1).drop_last() =~= headers@.take(done));
            assert(headers@.take(done + 1).last() == headers@[done]);
            set_header(&mut fresh, entry.name, entry.values);
        }
        assert(headers@.take(headers.len() as int) =~= headers@);
        builder.strategy.state.headers = fresh;
        builder
    }

    /// Sets one extra header, in place of any values that its name had.
    pub fn add_header(self, key: &str, value: &str) -> (builder: MultipartDownloadStrategyBuilder)
        ensures
            names_distinct(self.strategy.state.headers@) ==> names_distinct(
                builder.strategy.state.headers@,
            ),
            builder.strategy.segments == self.strategy.segments,
            builder.strategy.connections == self.strategy.connections,
            builder.strategy.state == (DownloaderState {
                headers: builder.strategy.state.headers,
                ..self.strategy.state
            }),
            exists|name: String, values: Vec<String>|
                {
                    &&& name@ == key@
                    &&& values@.len() == 1
                    &&& values@[0]@ == value@
                    &&& builder.strategy.state.headers@ == #[trigger] with_header(
                        self.strategy.state.headers@,
                        name,
                        values,
                    )
                },
    {
        let mut builder = self;
        let name = string_of(&chars_of(key));
        let mut values: Vec<String> = Vec::new();
        values.push(string_of(&chars_of(value)));
        let ghost before = builder.strategy.state.headers@;
        set_header(&mut builder.strategy.state.headers, name, values);
        assert(builder.strategy.state.headers@ == with_header(before, name, values));
        builder
    }

    /// Sets the credentials for Basic authentication.
    pub fn with_authentication(self, auth: AuthenticationInfo) -> (builder:
        MultipartDownloadStrategyBuilder)
        ensures
            builder.strategy == (MultipartDownloadStrategy {
                state: DownloaderState { authentication: Some(auth), ..self.strategy.state },
                ..self.strategy
            }),
    {
        let mut builder = self;
        builder.strategy.state.authentication = Some(auth);
        builder
    }

    /// Sets the proxy.
    pub fn with_proxy(self, proxy: ProxyInfo) -> (builder: MultipartDownloadStrategyBuilder)
        ensures
            builder.strategy == (MultipartDownloadStrategy {
                state: DownloaderState { proxy: Some(proxy), ..self.strategy.state },
                ..self.strategy
            }),
    {
        let mut builder = self;
        builder.strategy.state.proxy = Some(proxy);
        builder
    }

    /// Sets whether the result is to be converted to MP3.
    pub fn with_convert_to_mp3(self, convert: bool) -> (builder: MultipartDownloadStrategyBuilder)
        ensures
            builder.strategy == (MultipartDownloadStrategy {
                state: DownloaderState { convert_to_mp3: convert, ..self.strategy.state },
                ..self.strategy
            }),
    {
        let mut builder = self;
        builder.strategy.state.convert_to_mp3 = convert;
        builder
    }

    /// Sets the time of the last change of the resource.
    pub fn with_last_modified(self, last_modified: String) -> (builder:
        MultipartDownloadStrategyBuilder)
        ensures
            builder.strategy == (MultipartDownloadStrategy {
                state: DownloaderState {
                    last_modified: Some(last_modified),
                    ..self.strategy.state
                },
                ..self.strategy
            }),
    {
        let mut builder = self;
        builder.strategy.state.last_modified = Some(last_modified);
        builder
    }

    /// Sets the file name that the origin is taken to propose.
    pub fn with_attachment_name(self, name: String) -> (builder: MultipartDownloadStrategyBuilder)
        ensures
            builder.strategy == (MultipartDownloadStrategy {
                state: DownloaderState { attachment_name: Some(name), ..self.strategy.state },
                ..self.strategy
            }),
    {
        let mut builder = self;
        builder.strategy.state.attachment_name = Some(name);
        builder
    }

    /// Sets the media type of the resource.
    pub fn with_content_type(self, content_type: String) -> (builder:
        MultipartDownloadStrategyBuilder)
        ensures
            builder.strategy == (MultipartDownloadStrategy {
                state: DownloaderState { content_type: Some(content_type), ..self.strategy.state },
                ..self.strategy
            }),
    {
        let mut builder = self;
        builder.strategy.state.content_type = Some(content_type);
        builder
    }

    /// Sets the most ranges that are fetched at once.
    pub fn with_connection_size(self, connections: usize) -> (builder:
        MultipartDownloadStrategyBuilder)
        ensures
            builder.strategy == (MultipartDownloadStrategy { connections, ..self.strategy }),
    {
        let mut builder = self;
        builder.strategy.connections = connections;
        builder
    }

    /// The job as it was configured.
    pub fn build(self) -> (job: MultipartDownloadStrategy)
        ensures
            job == self.strategy,
    {
        self.strategy
    }
}

/// Every range of the plan is in the job, and the job covers the resource.
/// When the ranges of a plan for a resource of `size` bytes have ids that
/// are all different, the range map that the job stores is the plan itself:
/// the lengths of its ranges add up to `size`.
pub proof fn law_job_ranges_cover_the_resource(pieces: Seq<Piece>, size: int, limit: int)
    requires
        is_plan(spans_of(pieces), size, limit),
        ids_distinct(pieces),
    ensures
        put_all(Seq::empty(), pieces) == pieces,
        is_plan(spans_of(put_all(Seq::empty(), pieces)), size, limit),
        sum(lengths(spans_of(put_all(Seq::empty(), pieces)))) == size,
{
    law_distinct_plan_is_stored_whole(pieces);
}

/// Setting the entries one after the other does to the texts what
/// `with_pairs` says.
pub proof fn lemma_with_headers_all_texts(entries: Seq<HeaderEntry>, more: Seq<HeaderEntry>)
    ensures
        entry_texts(with_headers_all(entries, more)) == with_pairs(
            entry_texts(entries),
            entry_texts(more),
        ),
    decreases more.len(),
{
    if more.len() > 0 {
        lemma_with_headers_all_texts(entries, more.drop_last());
        lemma_with_header_texts(
            with_headers_all(entries, more.drop_last()),
            more.last().name,
            more.last().values,
        );
        assert(entry_texts(more).drop_last() =~= entry_texts(more.drop_last()));
    }
}

/// The phases of a download, in their order.
#[derive(Debug, Clone, Copy, PartialEq, Eq, Structural)]
pub enum Phase {
    Preprocess,
    Download,
    Postprocess,
}

/// What a downloader does once a phase has ended.
#[derive(Debug)]
pub enum Next {
    /// Run this phase.
    Run(Phase),
    /// The download is over: hand `result` back, and first tell the
    /// progress channel of the failure, if `signal` holds its text. The
    /// channel is closed after that in either case.
    Finish { result: Result<(), DownloadError>, signal: Option<String> },
}

/// The phase that follows `phase`, if one does.
pub open spec fn successor(phase: Phase) -> Option<Phase> {
    match phase {
        Phase::Preprocess => Some(Phase::Download),
        Phase::Download => Some(Phase::Postprocess),
        Phase::Postprocess => None,
    }
}

/// Whether the download is over once `phase` has ended with `result`:
/// after the last phase, and after any failure.
pub open spec fn ends_download(phase: Phase, result: Result<(), DownloadError>) -> bool {
    result is Err || successor(phase) is None
}

/// What the progress channel is told when a phase has ended with `result`:
/// the text of the error after a failure of whatever phase, and nothing
/// after a success.
pub open spec fn failure_signal(result: Result<(), DownloadError>) -> Option<Seq<char>> {
    match result {
        Err(error) => Some(error.message_text()),
        Ok(done) => None,
    }
}

/// Says what a downloader does once `phase` has ended with `result`.
pub fn after_phase(phase: Phase, result: Result<(), DownloadError>) -> (next: Next)
    ensures
        match next {
            Next::Run(then) => !ends_download(phase, result) && successor(phase) == Some(then),
            Next::Finish { result: handed, signal } => ends_download(phase, result) && handed
                == result && text_of(signal) == failure_signal(result),
        },
{
    match result {
        Err(error) => {
            let text = error.message();
            Next::Finish { result: Err(error), signal: Some(text) }
        },
        Ok(done) => match phase {
            Phase::Preprocess => Next::Run(Phase::Download),
            Phase::Download => Next::Run(Phase::Postprocess),
            Phase::Postprocess => Next::Finish { result: Ok(done), signal: None },
        },
    }
}

/// The result of a download whose phases end with the given results: the
/// first failure among them, and success if each of them succeeds.
pub open spec fn download_result(
    preprocess: Result<(), DownloadError>,
    download: Result<(), DownloadError>,
    postprocess: Result<(), DownloadError>,
) -> Result<(), DownloadError> {
    match preprocess {
        Err(error) => Err(error),
        Ok(a) => match download {
            Err(error) => Err(error),
            Ok(b) => postprocess,
        },
    }
}

/// A failure ends the download at once, and the channel hears of it. The
/// download begins with the preprocessing; a phase is run only after every
/// phase before it has succeeded, so that no range is fetched after a
/// failed probe and nothing is assembled after a failed fetch. The phase at
/// which the download ends has the result of the download, which is the
/// first failure or success; and the channel is told the text of the error
/// exactly where the download fails, in whatever phase.
pub proof fn law_failure_ends_the_download(
    preprocess: Result<(), DownloadError>,
    download: Result<(), DownloadError>,
    postprocess: Result<(), DownloadError>,
)
    ensures
        ends_download(Phase::Preprocess, preprocess) <==> preprocess is Err,
        ends_download(Phase::Download, download) <==> download is Err,
        ends_download(Phase::Postprocess, postprocess),
        preprocess is Err ==> download_result(preprocess, download, postprocess) == preprocess,
        preprocess is Ok && download is Err ==> download_result(preprocess, download, postprocess)
            == download,
        preprocess is Ok && download is Ok ==> download_result(preprocess, download, postprocess)
            == postprocess,
        failure_signal(download_result(preprocess, download, postprocess)) is Some
            <==> download_result(preprocess, download, postprocess) is Err,
        download_result(preprocess, download, postprocess) is Err ==> failure_signal(
            download_result(preprocess, download, postprocess),
        ) == Some(download_result(preprocess, download, postprocess)->Err_0.message_text()),
{
}

} // verus!
