//! The periodic check for a newer release.
use vstd::prelude::*;
use crate::clock::{now_secs, seconds_between, seconds_since};
use crate::self_update::{this_version, compare_versions, compare_version_strings, current_version, tag_version, version_of_tag};
use crate::text::{concat, is_empty_str, owned};

verus! {

/// What is remembered between update checks: when the last one ran and the
/// latest version it saw.
#[derive(Debug, Clone)]
pub struct UpdateCheckCache {
    pub last_checked: u64,
    pub latest_version: String,
}

/// Whole hours from `then` to `now` (none when `then` is later).
pub open spec fn hours_since(now: u64, then: u64) -> u64 {
    (seconds_since(now, then) / 3600) as u64
}

/// Whole hours from `then` to `now`.
pub fn elapsed_hours_at(now: u64, then: u64) -> (r: u64)
    ensures
        r == hours_since(now, then),
{
    seconds_between(now, then) / 3600
}

/// Whole hours since `then`, by the clock of this machine.
pub fn elapsed_hours(then: u64) -> (r: u64)
    ensures
        exists|now: u64| r == hours_since(now, then),
{
    elapsed_hours_at(now_secs(), then)
}

/// Whether a remembered latest version `latest` (a leading `v` ignored) is
/// newer than `current`.
pub open spec fn newer_than(latest: Seq<char>, current: Seq<char>) -> bool {
    let l = tag_version(latest);
    l.len() > 0 && compare_versions(l, current) > 0
}

/// The version to announce when the remembered latest version is newer than
/// `current`: the remembered one without its leading `v`.
pub fn update_available(latest: &str, current: &str) -> (r: Option<String>)
    ensures
        match r {
            Some(v) => newer_than(latest@, current@) && v@ == tag_version(latest@),
            None => !newer_than(latest@, current@),
        },
{
    let clean = version_of_tag(latest);
    if !is_empty_str(clean.as_str()) && compare_version_strings(clean.as_str(), current) > 0 {
        Some(clean)
    } else {
        None
    }
}

impl View for UpdateCheckCache {
    type V = (u64, Seq<char>);

    open spec fn view(&self) -> (u64, Seq<char>) {
        (self.last_checked, self.latest_version@)
    }
}

/// The record after a check that ran at `now` and got `fetched` from the
/// release server: the time and the version without its leading `v` when
/// it answered, the record unchanged otherwise.
pub open spec fn after_fetch<E>(cache: (u64, Seq<char>), now: u64, fetched: Result<String, E>) -> (
    u64,
    Seq<char>,
) {
    match fetched {
        Ok(t) => (now, tag_version(t@)),
        Err(_) => cache,
    }
}

/// The record after a check that ran at `now` and got `fetched`.
pub fn record_fetch<E>(cache: UpdateCheckCache, now: u64, fetched: Result<String, E>) -> (r:
    UpdateCheckCache)
    ensures
        r@ == after_fetch(cache@, now, fetched),
{
    match fetched {
        Ok(latest) => UpdateCheckCache { last_checked: now, latest_version: version_of_tag(latest.as_str()) },
        Err(_) => cache,
    }
}

/// What the periodic check decides at time `now`: nothing when
/// `interval_hours` is 0; when fewer hours than that have passed since the
/// last check, whether the remembered version is newer than this build;
/// otherwise it asks `fetcher` for the latest tag, records what it answered
/// (handing the record to `saver` when it answered) and decides on the
/// record. Nothing is fetched or saved unless a check is due.
pub fn check_and_notify_at<E, F: Fn() -> Result<String, E>, S: Fn(&UpdateCheckCache)>(
    interval_hours: u64,
    now: u64,
    cache: UpdateCheckCache,
    fetcher: &F,
    saver: &S,
) -> (r: bool)
    requires
        interval_hours > 0 && hours_since(now, cache.last_checked) >= interval_hours ==> call_requires(
            *fetcher,
            (),
        ),
        interval_hours > 0 && hours_since(now, cache.last_checked) >= interval_hours ==> forall|
            c: &UpdateCheckCache,
            t: String,
        |
            #![trigger call_ensures(*fetcher, (), Ok::<String, E>(t)), call_requires(*saver, (c,))]
            call_ensures(*fetcher, (), Ok::<String, E>(t)) && c@ == after_fetch(
                cache@,
                now,
                Ok::<String, E>(t),
            ) ==> call_requires(*saver, (c,)),
    ensures
        interval_hours == 0 ==> !r,
        interval_hours > 0 && hours_since(now, cache.last_checked) < interval_hours ==> r
            == newer_than(cache.latest_version@, this_version()),
        interval_hours > 0 && hours_since(now, cache.last_checked) >= interval_hours ==> exists|
            fetched: Result<String, E>,
        |
            call_ensures(*fetcher, (), fetched) && r == newer_than(
                #[trigger] after_fetch(cache@, now, fetched).1,
                this_version(),
            ) && (fetched is Ok ==> exists|c: &UpdateCheckCache|
                #[trigger] call_ensures(*saver, (c,), ()) && c@ == after_fetch(cache@, now, fetched)),
{
    if interval_hours == 0 {
        return false;
    }
    let ghost old_cache_view = cache@;
    let mut cache = cache;
    let elapsed = elapsed_hours_at(now, cache.last_checked);
    let ghost mut got: Option<Result<String, E>> = None;
    if elapsed >= interval_hours {
        let fetched = fetcher();
        proof {
            got = Some(fetched);
        }
        let answered = fetched.is_ok();
        cache = record_fetch(cache, now, fetched);
        if answered {
            saver(&cache);
            assert(call_ensures(*saver, (&cache,), ()));
        }
    }
    let current = current_version();
    let r = match update_available(cache.latest_version.as_str(), current) {
        Some(_) => true,
        None => false,
    };
    proof {
        if elapsed >= interval_hours {
            let f = got.unwrap();
            assert(after_fetch(old_cache_view, now, f).1 == cache@.1);
            assert(after_fetch(old_cache_view, now, f) == cache@);
        }
    }
    r
}

/// Checks for a newer release at most once per `interval_hours` (never when
/// it is 0), by the clock of this machine; see `check_and_notify_at`.
/// Answers whether the latest known version is newer than this build, which
/// is then announced.
pub fn check_and_notify_internal<E, F: Fn() -> Result<String, E>, S: Fn(&UpdateCheckCache)>(
    interval_hours: u64,
    cache: UpdateCheckCache,
    fetcher: &F,
    saver: &S,
) -> (r: bool)
    requires
        interval_hours > 0 ==> call_requires(*fetcher, ()) && forall|c: &UpdateCheckCache|
            call_requires(*saver, (c,)),
    ensures
        interval_hours == 0 ==> !r,
        interval_hours > 0 ==> exists|now: u64|
            {
                &&& #[trigger] hours_since(now, cache.last_checked) < interval_hours ==> r
                    == newer_than(cache.latest_version@, this_version())
                &&& hours_since(now, cache.last_checked) >= interval_hours ==> exists|
                    fetched: Result<String, E>,
                |
                    call_ensures(*fetcher, (), fetched) && r == newer_than(
                        #[trigger] after_fetch(cache@, now, fetched).1,
                        this_version(),
                    ) && (fetched is Ok ==> exists|c: &UpdateCheckCache|
                        #[trigger] call_ensures(*saver, (c,), ()) && c@ == after_fetch(
                            cache@,
                            now,
                            fetched,
                        ))
            },
{
    let ghost last = cache.last_checked;
    let now = now_secs();
    let r = check_and_notify_at(interval_hours, now, cache, fetcher, saver);
    assert(hours_since(now, last) == hours_since(now, last));
    r
}

/// Spaces appended to `s` until it has `width` characters.
pub open spec fn pad_to(s: Seq<char>, width: nat) -> Seq<char> {
    if s.len() >= width {
        s
    } else {
        s + Seq::new((width - s.len()) as nat, |i: int| ' ')
    }
}

/// `n` copies of `c`.
pub fn repeat_char(c: char, n: usize) -> (r: String)
    ensures
        r@ == Seq::new(n as nat, |i: int| c),
{
    let mut v: Vec<char> = Vec::new();
    let mut i: usize = 0;
    while i < n
        invariant
            i <= n,
            v@ == Seq::new(i as nat, |j: int| c),
        decreases n - i,
    {
        v.push(c);
        i = i + 1;
        assert(v@ =~= Seq::new(i as nat, |j: int| c));
    }
    crate::text::string_of(v.as_slice())
}

/// Pads `s` with spaces to `width` characters.
pub fn pad_to_chars(s: &str, width: usize) -> (r: String)
    ensures
        r@ == pad_to(s@, width as nat),
{
    let count = s.unicode_len();
    if count >= width {
        owned(s)
    } else {
        let spaces = repeat_char(' ', width - count);
        concat(s, spaces.as_str())
    }
}

/// The lines of the notice that version `latest` is available while
/// `current` runs: a box around two messages.
pub open spec fn notice_lines(current: Seq<char>, latest: Seq<char>) -> Seq<Seq<char>> {
    let msg1 = "  Update available: "@ + current + " \u{2192} "@ + latest + "  "@;
    let msg2 = "  Run tmuxido --update to install.  "@;
    let width = if msg1.len() >= msg2.len() {
        msg1.len()
    } else {
        msg2.len()
    };
    let border = Seq::new(width, |i: int| '\u{2500}');
    seq![
        "\u{250c}"@ + border + "\u{2510}"@,
        "\u{2502}"@ + pad_to(msg1, width) + "\u{2502}"@,
        "\u{2502}"@ + pad_to(msg2, width) + "\u{2502}"@,
        "\u{2514}"@ + border + "\u{2518}"@,
    ]
}

/// The lines of the update notice, to be printed in order.
pub fn update_notice_lines(current: &str, latest: &str) -> (r: Vec<String>)
    ensures
        crate::text::strs(r@) == notice_lines(current@, latest@),
{
    let a = concat("  Update available: ", current);
    let b = concat(a.as_str(), " \u{2192} ");
    let c = concat(b.as_str(), latest);
    let msg1 = concat(c.as_str(), "  ");
    let msg2 = "  Run tmuxido --update to install.  ";
    let w1 = msg1.as_str().unicode_len();
    let w2 = msg2.unicode_len();
    let width = if w1 >= w2 {
        w1
    } else {
        w2
    };
    let border = repeat_char('\u{2500}', width);
    let top1 = concat("\u{250c}", border.as_str());
    let top = concat(top1.as_str(), "\u{2510}");
    let p1 = pad_to_chars(msg1.as_str(), width);
    let l11 = concat("\u{2502}", p1.as_str());
    let l1 = concat(l11.as_str(), "\u{2502}");
    let p2 = pad_to_chars(msg2, width);
    let l21 = concat("\u{2502}", p2.as_str());
    let l2 = concat(l21.as_str(), "\u{2502}");
    let bot1 = concat("\u{2514}", border.as_str());
    let bot = concat(bot1.as_str(), "\u{2518}");
    let r = vec![top, l1, l2, bot];
    assert(crate::text::strs(r@) =~= notice_lines(current@, latest@));
    r
}


/// The file that remembers update checks, for a cache directory, if one is
/// known.
pub fn update_check_path_from(dir: Option<String>) -> (r: Result<(String, String), crate::config::DirError>)
    ensures
        match dir {
            Some(d) => r matches Ok(p) && p.0@ == crate::cache::cache_folder_in(d@) && p.1@
                == crate::paths::join_path(crate::cache::cache_folder_in(d@), "update_check.json"@),
            None => r == Err::<(String, String), crate::config::DirError>(
                crate::config::DirError::NoCacheDir,
            ),
        },
{
    match dir {
        Some(d) => {
            proof {
                reveal_strlit("tmuxido");
                reveal_strlit("update_check.json");
            }
            let folder = crate::paths::join_path_str(d.as_str(), "tmuxido");
            let file = crate::paths::join_path_str(folder.as_str(), "update_check.json");
            Ok((folder, file))
        },
        None => Err(crate::config::DirError::NoCacheDir),
    }
}

/// The file that remembers update checks, with its folder, in the cache
/// directory of this machine.
pub fn update_check_path() -> (r: Result<(String, String), crate::config::DirError>)
    ensures
        r matches Ok(p) ==> exists|d: Seq<char>|
            p.0@ == crate::cache::cache_folder_in(d) && p.1@ == crate::paths::join_path(
                crate::cache::cache_folder_in(d),
                "update_check.json"@,
            ),
        r matches Err(e) ==> e == crate::config::DirError::NoCacheDir,
{
    update_check_path_from(crate::paths::cache_dir())
}

/// Law: a remembered version equal to the running one is never announced
/// as an update (for a version that does not begin with `v`, as the build's
/// own does not).
pub proof fn law_same_version_not_announced(current: Seq<char>)
    requires
        current.len() == 0 || current[0] != 'v',
    ensures
        !newer_than(current, current),
{
    assert(tag_version(current) == current);
    crate::self_update::law_version_compare_reflexive(current);
}

} // verus!
