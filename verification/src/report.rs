//! What the commands print.

use vstd::prelude::*;
use vstd::string::*;

use crate::search;
use crate::config;
use crate::config::{AiBackend, Config};
use crate::extract::glue;
use crate::ids;
use crate::job;
use crate::job::{IngestJob, JobStatus};
use crate::paths;
use crate::queue;
use crate::queue::JobQueue;
use crate::text;
use crate::tools::ResolvedTools;
use crate::vault;
use crate::vault::VaultPaths;

verus! {

/// The name of a backend.
pub open spec fn backend_text(b: AiBackend) -> Seq<char> {
    match b {
        AiBackend::GrokSession => "GrokSession"@,
        AiBackend::QueueOnly => "QueueOnly"@,
    }
}

fn backend_name(b: AiBackend) -> (r: &'static str)
    ensures
        r@ == backend_text(b),
{
    match b {
        AiBackend::GrokSession => "GrokSession",
        AiBackend::QueueOnly => "QueueOnly",
    }
}

/// Settings, tools and whether Grok was found, with the state directory given.
pub open spec fn doctor_text(cfg: Config, tools: ResolvedTools, grok_found: bool, state: Seq<char>) -> Seq<
    Seq<char>,
> {
    seq![
        "vault="@ + cfg.vault_path@,
        "ai_backend="@ + backend_text(cfg.ai_backend),
        "grok_binary="@ + cfg.grok.binary@,
        if grok_found {
            "grok_binary_found=yes"@
        } else {
            "grok_binary_found=no"@
        },
        "grok_max_retries="@ + text::decimal_of(cfg.grok.max_retries as nat),
    ] + (tools.facts() + tools.warnings(state)) + seq![
        "models_dir="@ + paths::under(state, "models"@),
    ]
}

/// Settings, tools and whether Grok was found.
pub fn doctor_report(cfg: &Config, tools: &ResolvedTools, grok_found: bool, state: &str) -> (r: Vec<
    String,
>)
    ensures
        text::views(r@) == doctor_text(*cfg, *tools, grok_found, state@),
{
    let mut out: Vec<String> = Vec::new();
    text::push_text(&mut out, glue("vault=", cfg.vault_path.as_str()));
    text::push_text(&mut out, glue("ai_backend=", backend_name(cfg.ai_backend)));
    text::push_text(&mut out, glue("grok_binary=", cfg.grok.binary.as_str()));
    let found = if grok_found {
        "grok_binary_found=yes"
    } else {
        "grok_binary_found=no"
    };
    text::push_text(&mut out, found.to_owned());
    text::push_text(
        &mut out,
        glue("grok_max_retries=", text::decimal(cfg.grok.max_retries as u64).as_str()),
    );
    let ghost head = text::views(out@);
    let ghost first = out@;
    let mut lines = tools.doctor_lines_in(state);
    let ghost added = lines@;
    out.append(&mut lines);
    assert(text::views(out@) == text::views(first) + text::views(added));
    text::push_text(&mut out, glue("models_dir=", paths::join(state, "models").as_str()));
    assert(text::views(out@) == doctor_text(*cfg, *tools, grok_found, state@));
    out
}

/// What was set up.
pub open spec fn init_text(
    cfg: Config,
    prompt: Option<Seq<char>>,
    models: Seq<char>,
    config_file: Seq<char>,
    queue_root: Seq<char>,
) -> Seq<Seq<char>> {
    (match prompt {
        Some(p) => seq!["Prompt:  "@ + p],
        None => Seq::empty(),
    }) + seq![
        "Models:  "@ + models,
        "Config:  "@ + config_file,
        "Vault:   "@ + cfg.vault_path@,
        "Incoming:"@ + vault::two_below(cfg.vault_path@, "raw"@, "incoming"@),
        "Queue:   "@ + queue_root,
        "AI:      "@ + backend_text(cfg.ai_backend),
        "Grok bin:"@ + cfg.grok.binary@,
    ] + (if cfg.ai_backend == AiBackend::GrokSession {
        seq![
            "Note: language work uses your Grok CLI session (SuperGrok). No xAI API key is used."@,
        ]
    } else {
        Seq::empty()
    })
}

/// What was set up: the prompt, if it could be written, and where everything is.
pub fn init_report(
    cfg: &Config,
    prompt: Option<&str>,
    models: &str,
    config_file: &str,
    queue_root: &str,
) -> (r: Vec<String>)
    ensures
        text::views(r@) == init_text(
            *cfg,
            text::opt_str(prompt),
            models@,
            config_file@,
            queue_root@,
        ),
{
    let v = VaultPaths::new(cfg.vault_path.clone());
    let mut out: Vec<String> = Vec::new();
    if let Some(p) = prompt {
        text::push_text(&mut out, glue("Prompt:  ", p));
    }
    text::push_text(&mut out, glue("Models:  ", models));
    text::push_text(&mut out, glue("Config:  ", config_file));
    text::push_text(&mut out, glue("Vault:   ", cfg.vault_path.as_str()));
    text::push_text(&mut out, glue("Incoming:", v.incoming().as_str()));
    text::push_text(&mut out, glue("Queue:   ", queue_root));
    text::push_text(&mut out, glue("AI:      ", backend_name(cfg.ai_backend)));
    text::push_text(&mut out, glue("Grok bin:", cfg.grok.binary.as_str()));
    if cfg.ai_backend == AiBackend::GrokSession {
        text::push_text(
            &mut out,
            "Note: language work uses your Grok CLI session (SuperGrok). No xAI API key is used.".to_owned(),
        );
    }
    assert(text::views(out@) == init_text(
        *cfg,
        text::opt_str(prompt),
        models@,
        config_file@,
        queue_root@,
    ));
    out
}

/// Where everything is.
pub open spec fn paths_text(cfg: Config, config_file: Seq<char>) -> Seq<Seq<char>> {
    let root = cfg.vault_path@;
    seq![
        "vault_path="@ + root,
        "incoming="@ + vault::two_below(root, "raw"@, "incoming"@),
        "processed="@ + vault::two_below(root, "raw"@, "processed"@),
        "projects="@ + vault::two_below(root, "wiki"@, "projects"@),
        "config="@ + config_file,
        "ai_backend="@ + backend_text(cfg.ai_backend),
    ]
}

/// Where everything is, with the place of the config file given.
pub fn paths_report_in(cfg: &Config, config_file: &str) -> (r: Vec<String>)
    ensures
        text::views(r@) == paths_text(*cfg, config_file@),
{
    let v = VaultPaths::new(cfg.vault_path.clone());
    let mut out: Vec<String> = Vec::new();
    text::push_text(&mut out, glue("vault_path=", cfg.vault_path.as_str()));
    text::push_text(&mut out, glue("incoming=", v.incoming().as_str()));
    text::push_text(&mut out, glue("processed=", v.processed().as_str()));
    text::push_text(&mut out, glue("projects=", v.projects().as_str()));
    text::push_text(&mut out, glue("config=", config_file));
    text::push_text(&mut out, glue("ai_backend=", backend_name(cfg.ai_backend)));
    assert(text::views(out@) == paths_text(*cfg, config_file@));
    out
}

/// Where everything is.
pub fn paths_report(cfg: &Config) -> (r: Vec<String>)
    ensures
        exists|dir: Seq<char>|
            config::names_project(dir) && text::views(r@) == paths_text(
                *cfg,
                #[trigger] config::config_file_in(dir),
            ),
{
    let file = Config::config_file_path();
    paths_report_in(cfg, file.as_str())
}

/// The statuses, in the order of their names.
pub open spec fn statuses() -> Seq<JobStatus> {
    seq![
        JobStatus::AwaitingAi,
        JobStatus::Done,
        JobStatus::Extracting,
        JobStatus::Failed,
        JobStatus::Pending,
        JobStatus::Skipped,
        JobStatus::Writing,
    ]
}

/// One line for each status among the first `n` that some job has, with their number.
pub open spec fn count_lines(jobs: Seq<IngestJob>, n: int) -> Seq<Seq<char>>
    decreases n,
{
    if n <= 0 {
        Seq::empty()
    } else {
        let s = statuses()[n - 1];
        let k = queue::with_status(jobs, s).len();
        let before = count_lines(jobs, n - 1);
        if k > 0 {
            before.push("  "@ + job::status_text(s) + "="@ + text::decimal_of(k))
        } else {
            before
        }
    }
}

/// A job in one line.
pub open spec fn job_line(j: IngestJob) -> Seq<char> {
    "- "@ + ids::uuid_text(j.id) + " "@ + job::status_text(j.status) + " "@ + j.source_path@ + " "@ + (
    match text::opt_view(j.project_slug) {
        Some(s) => s,
        None => "-"@,
    })
}

/// The last `n` jobs, the last one first.
pub open spec fn last_lines(jobs: Seq<IngestJob>, n: int) -> Seq<Seq<char>>
    decreases n,
{
    if n <= 0 || jobs.len() == 0 {
        Seq::empty()
    } else {
        seq![job_line(jobs.last())] + last_lines(jobs.drop_last(), n - 1)
    }
}

/// How many jobs there are, and the last ones.
pub open spec fn status_lines(root: Seq<char>, jobs: Seq<IngestJob>) -> Seq<Seq<char>> {
    seq!["vault="@ + root, "jobs_total="@ + text::decimal_of(jobs.len())] + count_lines(jobs, 7)
        + last_lines(jobs, 10)
}

fn status_at(i: usize) -> (r: JobStatus)
    requires
        i < 7,
    ensures
        r == statuses()[i as int],
{
    if i == 0 {
        JobStatus::AwaitingAi
    } else if i == 1 {
        JobStatus::Done
    } else if i == 2 {
        JobStatus::Extracting
    } else if i == 3 {
        JobStatus::Failed
    } else if i == 4 {
        JobStatus::Pending
    } else if i == 5 {
        JobStatus::Skipped
    } else {
        JobStatus::Writing
    }
}

/// How many jobs have a status.
fn count(jobs: &Vec<IngestJob>, status: JobStatus) -> (r: usize)
    ensures
        r == queue::with_status(jobs@, status).len(),
{
    let ghost f = |j: IngestJob| j.status == status;
    let mut n: usize = 0;
    let mut i: usize = 0;
    assert(jobs@.take(0).filter(f).len() == 0) by {
        jobs@.take(0).lemma_filter_len(f);
    }
    while i < jobs.len()
        invariant
            i <= jobs.len(),
            n <= i,
            f == (|j: IngestJob| j.status == status),
            n == jobs@.take(i as int).filter(f).len(),
        decreases jobs@.len() - i,
    {
        proof {
            jobs@.take(i as int).lemma_filter_push(jobs@[i as int], f);
            assert(jobs@.take(i + 1) == jobs@.take(i as int).push(jobs@[i as int]));
        }
        if jobs[i].status == status {
            n = n + 1;
        }
        i = i + 1;
    }
    assert(jobs@.take(i as int) == jobs@);
    n
}

fn job_line_text(j: &IngestJob) -> (r: String)
    ensures
        r@ == job_line(*j),
{
    let mut s = glue("- ", ids::id_text(j.id).as_str());
    s.append(" ");
    s.append(j.status.name());
    s.append(" ");
    s.append(j.source_path.as_str());
    s.append(" ");
    s.append(text::text_or(&j.project_slug, "-"));
    s
}

/// How many jobs were read, in which status, and the last ones.
pub fn status_report(cfg: &Config, read: Vec<IngestJob>) -> (r: Vec<String>)
    ensures
        text::views(r@) == status_lines(cfg.vault_path@, queue::in_order(read@)),
{
    let ghost src = queue::in_order(read@);
    let jobs = JobQueue::list(read);
    let mut out: Vec<String> = Vec::new();
    text::push_text(&mut out, glue("vault=", cfg.vault_path.as_str()));
    text::push_text(
        &mut out,
        glue("jobs_total=", text::decimal(jobs.len() as u64).as_str()),
    );
    let ghost head = text::views(out@);
    assert(head == seq![
        "vault="@ + cfg.vault_path@,
        "jobs_total="@ + text::decimal_of(src.len()),
    ]);
    let mut i: usize = 0;
    assert(text::views(out@) == head + count_lines(src, 0));
    while i < 7
        invariant
            i <= 7,
            jobs@ == src,
            text::views(out@) == head + count_lines(src, i as int),
        decreases 7 - i,
    {
        let s = status_at(i);
        let k: usize = count(&jobs, s);
        if k > 0 {
            let mut line = glue("  ", s.name());
            line.append("=");
            line.append(text::decimal(k as u64).as_str());
            text::push_text(&mut out, line);
        }
        i = i + 1;
        assert(text::views(out@) == head + count_lines(src, i as int));
    }
    let ghost counted = text::views(out@);
    let ghost all = last_lines(src, 10);
    let mut left: usize = 10;
    let mut n: usize = jobs.len();
    assert(src.take(n as int) == src);
    assert(text::views(out@) + last_lines(src, 10) == counted + all);
    while left > 0 && n > 0
        invariant
            left <= 10,
            n <= jobs@.len(),
            jobs@ == src,
            text::views(out@) + last_lines(src.take(n as int), left as int) == counted + all,
        decreases left,
    {
        let ghost t = src.take(n as int);
        let ghost before = text::views(out@);
        assert(t.last() == src[n - 1]);
        assert(t.drop_last() == src.take(n - 1));
        let line = job_line_text(&jobs[n - 1]);
        text::push_text(&mut out, line);
        assert(text::views(out@) + last_lines(src.take(n - 1), left - 1) == before + (seq![line@]
            + last_lines(src.take(n - 1), left - 1)));
        left = left - 1;
        n = n - 1;
    }
    assert(text::views(out@) + Seq::<Seq<char>>::empty() == text::views(out@));
    out
}

/// The last jobs are shown newest first, at most as many as wanted.
pub proof fn last_jobs_are_shown_newest_first(jobs: Seq<IngestJob>, n: int)
    requires
        0 <= n,
    ensures
        last_lines(jobs, n).len() == if n < jobs.len() {
            n
        } else {
            jobs.len() as int
        },
        forall|k: int|
            0 <= k < last_lines(jobs, n).len() ==> #[trigger] last_lines(jobs, n)[k] == job_line(
                jobs[jobs.len() - 1 - k],
            ),
    decreases n,
{
    if n > 0 && jobs.len() > 0 {
        let d = jobs.drop_last();
        last_jobs_are_shown_newest_first(d, n - 1);
        let r = last_lines(d, n - 1);
        let all = last_lines(jobs, n);
        assert(all == seq![job_line(jobs.last())] + r);
        assert forall|k: int| 0 <= k < all.len() implies #[trigger] all[k] == job_line(
            jobs[jobs.len() - 1 - k],
        ) by {
            if k > 0 {
                assert(all[k] == r[k - 1]);
                assert(d[d.len() - 1 - (k - 1)] == jobs[jobs.len() - 1 - k]);
            }
        }
    }
}

/// The line of a job tells which it is, how far it has come, where its source lies, and to
/// which project it went.
pub proof fn job_lines_tell_the_job(j: IngestJob)
    ensures
        search::occurs(job_line(j), ids::uuid_text(j.id)),
        search::occurs(job_line(j), job::status_text(j.status)),
        search::occurs(job_line(j), j.source_path@),
        j.project_slug matches Some(s) ==> search::occurs(job_line(j), s@),
        text::begins(
            job_line(j),
            "- "@ + ids::uuid_text(j.id) + " "@ + job::status_text(j.status) + " "@ + j.source_path@,
        ),
{
    let p = match text::opt_view(j.project_slug) {
        Some(s) => s,
        None => "-"@,
    };
    let s1 = "- "@ + ids::uuid_text(j.id);
    let s2 = s1 + " "@;
    let s3 = s2 + job::status_text(j.status);
    let s4 = s3 + " "@;
    let s5 = s4 + j.source_path@;
    let s6 = s5 + " "@;
    assert(job_line(j).take(s5.len() as int) == s5);
    search::lemma_occurs_itself(ids::uuid_text(j.id));
    search::lemma_occurs_itself(job::status_text(j.status));
    search::lemma_occurs_itself(j.source_path@);
    search::lemma_occurs_itself(p);
    search::lemma_occurs_add("- "@, ids::uuid_text(j.id));
    search::lemma_occurs_add(s1, " "@);
    search::lemma_occurs_add(s2, job::status_text(j.status));
    search::lemma_occurs_add(s3, " "@);
    search::lemma_occurs_add(s4, j.source_path@);
    search::lemma_occurs_add(s5, " "@);
    search::lemma_occurs_add(s6, p);
}

/// The report tells how many jobs there are, and for each status that occurs how many have
/// it.
pub proof fn jobs_are_counted(root: Seq<char>, jobs: Seq<IngestJob>, status: JobStatus)
    ensures
        status_lines(root, jobs)[0] == "vault="@ + root,
        status_lines(root, jobs)[1] == "jobs_total="@ + text::decimal_of(jobs.len()),
        queue::with_status(jobs, status).len() > 0 ==> status_lines(root, jobs).contains(
            "  "@ + job::status_text(status) + "="@ + text::decimal_of(
                queue::with_status(jobs, status).len(),
            ),
        ),
{
    let s = status_lines(root, jobs);
    let c = count_lines(jobs, 7);
    if queue::with_status(jobs, status).len() > 0 {
        let i: int = match status {
            JobStatus::AwaitingAi => 0,
            JobStatus::Done => 1,
            JobStatus::Extracting => 2,
            JobStatus::Failed => 3,
            JobStatus::Pending => 4,
            JobStatus::Skipped => 5,
            JobStatus::Writing => 6,
        };
        assert(statuses()[i] == status);
        lemma_counted(jobs, 7, i);
        let l = "  "@ + job::status_text(status) + "="@ + text::decimal_of(
            queue::with_status(jobs, status).len(),
        );
        let k = choose|k: int| 0 <= k < c.len() && c[k] == l;
        assert(s[k + 2] == l);
    }
}

proof fn lemma_counted(jobs: Seq<IngestJob>, n: int, i: int)
    requires
        0 <= i < n <= 7,
        queue::with_status(jobs, statuses()[i]).len() > 0,
    ensures
        count_lines(jobs, n).contains(
            "  "@ + job::status_text(statuses()[i]) + "="@ + text::decimal_of(
                queue::with_status(jobs, statuses()[i]).len(),
            ),
        ),
    decreases n,
{
    let l = "  "@ + job::status_text(statuses()[i]) + "="@ + text::decimal_of(
        queue::with_status(jobs, statuses()[i]).len(),
    );
    let all = count_lines(jobs, n);
    if i == n - 1 {
        assert(all[all.len() - 1] == l);
    } else {
        lemma_counted(jobs, n - 1, i);
        let b = count_lines(jobs, n - 1);
        let k = choose|k: int| 0 <= k < b.len() && b[k] == l;
        assert(all[k] == l);
    }
}

/// The reports name the vault and its places, the settings that are in force, and whether
/// Grok was found; and that no key is used is said where Grok is.
pub proof fn reports_tell_what_is_in_force(
    cfg: Config,
    tools: ResolvedTools,
    grok_found: bool,
    state: Seq<char>,
    models: Seq<char>,
    config_file: Seq<char>,
    queue_root: Seq<char>,
)
    ensures
        ({
            let p = paths_text(cfg, config_file);
            let root = cfg.vault_path@;
            &&& text::ends(p[0], root)
            &&& text::ends(p[1], paths::under(paths::under(root, "raw"@), "incoming"@))
            &&& text::ends(p[2], paths::under(paths::under(root, "raw"@), "processed"@))
            &&& text::ends(p[3], paths::under(paths::under(root, "wiki"@), "projects"@))
            &&& text::ends(p[4], config_file)
            &&& text::ends(p[5], backend_text(cfg.ai_backend))
        }),
        ({
            let d = doctor_text(cfg, tools, grok_found, state);
            &&& text::ends(d[0], cfg.vault_path@)
            &&& text::ends(d[1], backend_text(cfg.ai_backend))
            &&& text::ends(d[2], cfg.grok.binary@)
            &&& grok_found ==> text::ends(d[3], "yes"@)
            &&& !grok_found ==> text::ends(d[3], "no"@)
            &&& text::ends(d[4], text::decimal_of(cfg.grok.max_retries as nat))
            &&& text::ends(d.last(), paths::under(state, "models"@))
            &&& d.len() == 6 + tools.facts().len() + tools.warnings(state).len()
        }),
        ({
            let i = init_text(cfg, None, models, config_file, queue_root);
            &&& text::ends(i[0], models)
            &&& text::ends(i[1], config_file)
            &&& text::ends(i[2], cfg.vault_path@)
            &&& text::ends(i[3], paths::under(paths::under(cfg.vault_path@, "raw"@), "incoming"@))
            &&& text::ends(i[4], queue_root)
            &&& text::ends(i[5], backend_text(cfg.ai_backend))
            &&& text::ends(i[6], cfg.grok.binary@)
            &&& i.len() == if cfg.ai_backend == AiBackend::GrokSession {
                8int
            } else {
                7
            }
        }),
        backend_text(AiBackend::GrokSession) != backend_text(AiBackend::QueueOnly),
{
    lemma_paths_text(cfg, config_file);
    lemma_doctor_text(cfg, tools, grok_found, state);
    lemma_init_text(cfg, models, config_file, queue_root);
    reveal_strlit("GrokSession");
    reveal_strlit("QueueOnly");
    assert("GrokSession"@.len() == 11 && "QueueOnly"@.len() == 9);
}

proof fn lemma_ends(a: Seq<char>, b: Seq<char>)
    ensures
        text::ends(a + b, b),
{
    assert((a + b).skip((a + b).len() - b.len()) == b);
}

proof fn lemma_paths_text(cfg: Config, config_file: Seq<char>)
    ensures
        ({
            let p = paths_text(cfg, config_file);
            let root = cfg.vault_path@;
            &&& text::ends(p[0], root)
            &&& text::ends(p[1], paths::under(paths::under(root, "raw"@), "incoming"@))
            &&& text::ends(p[2], paths::under(paths::under(root, "raw"@), "processed"@))
            &&& text::ends(p[3], paths::under(paths::under(root, "wiki"@), "projects"@))
            &&& text::ends(p[4], config_file)
            &&& text::ends(p[5], backend_text(cfg.ai_backend))
        }),
{
    let root = cfg.vault_path@;
    lemma_ends("vault_path="@, root);
    lemma_ends("incoming="@, vault::two_below(root, "raw"@, "incoming"@));
    lemma_ends("processed="@, vault::two_below(root, "raw"@, "processed"@));
    lemma_ends("projects="@, vault::two_below(root, "wiki"@, "projects"@));
    lemma_ends("config="@, config_file);
    lemma_ends("ai_backend="@, backend_text(cfg.ai_backend));
}

proof fn lemma_doctor_text(cfg: Config, tools: ResolvedTools, grok_found: bool, state: Seq<char>)
    ensures
        ({
            let d = doctor_text(cfg, tools, grok_found, state);
            &&& text::ends(d[0], cfg.vault_path@)
            &&& text::ends(d[1], backend_text(cfg.ai_backend))
            &&& text::ends(d[2], cfg.grok.binary@)
            &&& grok_found ==> text::ends(d[3], "yes"@)
            &&& !grok_found ==> text::ends(d[3], "no"@)
            &&& text::ends(d[4], text::decimal_of(cfg.grok.max_retries as nat))
            &&& text::ends(d.last(), paths::under(state, "models"@))
            &&& d.len() == 6 + tools.facts().len() + tools.warnings(state).len()
        }),
{
    lemma_ends("vault="@, cfg.vault_path@);
    lemma_ends("ai_backend="@, backend_text(cfg.ai_backend));
    lemma_ends("grok_binary="@, cfg.grok.binary@);
    lemma_ends("grok_max_retries="@, text::decimal_of(cfg.grok.max_retries as nat));
    lemma_ends("models_dir="@, paths::under(state, "models"@));
    reveal_strlit("grok_binary_found=yes");
    reveal_strlit("grok_binary_found=no");
    reveal_strlit("yes");
    reveal_strlit("no");
    assert("grok_binary_found=yes"@.skip(18) == "yes"@);
    assert("grok_binary_found=no"@.skip(18) == "no"@);
}

proof fn lemma_init_text(cfg: Config, models: Seq<char>, config_file: Seq<char>, queue_root: Seq<char>)
    ensures
        ({
            let i = init_text(cfg, None, models, config_file, queue_root);
            &&& text::ends(i[0], models)
            &&& text::ends(i[1], config_file)
            &&& text::ends(i[2], cfg.vault_path@)
            &&& text::ends(i[3], paths::under(paths::under(cfg.vault_path@, "raw"@), "incoming"@))
            &&& text::ends(i[4], queue_root)
            &&& text::ends(i[5], backend_text(cfg.ai_backend))
            &&& text::ends(i[6], cfg.grok.binary@)
            &&& i.len() == if cfg.ai_backend == AiBackend::GrokSession {
                8int
            } else {
                7
            }
        }),
{
    lemma_ends("Models:  "@, models);
    lemma_ends("Config:  "@, config_file);
    lemma_ends("Vault:   "@, cfg.vault_path@);
    lemma_ends("Incoming:"@, vault::two_below(cfg.vault_path@, "raw"@, "incoming"@));
    lemma_ends("Queue:   "@, queue_root);
    lemma_ends("AI:      "@, backend_text(cfg.ai_backend));
    lemma_ends("Grok bin:"@, cfg.grok.binary@);
}

} // verus!
