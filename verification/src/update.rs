//! Offering, fetching and installing an update.

use vstd::prelude::*;
use vstd::slice::slice_subrange;

use crate::fields::{
    law_places_are_the_first_and_the_last, rfind, rfind_char, trim_end_char, without_trailing,
};
use crate::text::chars_of;

verus! {

/// The question put to the user.
pub open spec fn question(current: Seq<char>, latest: Seq<char>) -> Seq<char> {
    "A new update is available!\n\nCurrent: "@ + current + "\nLatest: "@ + latest
        + "\n\nDownload and install now?"@
}

/// The question put to the user when an update is there.
pub fn update_message(current: &str, latest: &str) -> (text: String)
    ensures
        text@ == question(current@, latest@),
{
    let mut text: String = "A new update is available!\n\nCurrent: ".to_owned();
    text.append(current);
    text.append("\nLatest: ");
    text.append(latest);
    text.append("\n\nDownload and install now?");
    text
}

/// What follows on the user's answer.
#[derive(Clone, Copy, Debug, PartialEq, Eq, Structural)]
pub enum UpdateAction {
    Nothing,
    /// Download the installer and run it.
    Install,
    /// There is no installer to download: show where releases are.
    ShowReleases,
}

/// What follows on the user's answer, given where the installer is.
pub open spec fn action_on(accepted: bool, installer_url: Seq<char>) -> UpdateAction {
    if !accepted {
        UpdateAction::Nothing
    } else if installer_url.len() > 0 {
        UpdateAction::Install
    } else {
        UpdateAction::ShowReleases
    }
}

/// Nothing is ever done that the user did not accept, and what is accepted is installed
/// exactly where there is something to install.
pub proof fn law_updates_wait_for_the_user(accepted: bool, installer_url: Seq<char>)
    ensures
        action_on(accepted, installer_url) == UpdateAction::Nothing <==> !accepted,
        action_on(accepted, installer_url) == UpdateAction::Install <==> accepted && installer_url
            != Seq::<char>::empty(),
{
    if installer_url.len() == 0 {
        assert(installer_url =~= Seq::empty());
    }
}

/// The question names the version there is and the version to be had, whatever they are.
pub proof fn law_question_names_both_versions(current: Seq<char>, latest: Seq<char>)
    ensures
        ({
            let q = question(current, latest);
            let n = "A new update is available!\n\nCurrent: "@.len() as int;
            let m = "\nLatest: "@.len() as int;
            let none = question(Seq::empty(), Seq::empty());
            &&& q.len() == none.len() + current.len() + latest.len()
            &&& q.take(n) == none.take(n)
            &&& q.subrange(n, n + current.len()) == current
            &&& q.subrange(n + current.len(), n + current.len() + m) == none.subrange(n, n + m)
            &&& q.subrange(n + current.len() + m, n + current.len() + m + latest.len()) == latest
            &&& q.skip(n + current.len() + m + latest.len()) == none.skip(n + m)
        }),
{
    let q = question(current, latest);
    let a = "A new update is available!\n\nCurrent: "@;
    let b = "\nLatest: "@;
    let c = "\n\nDownload and install now?"@;
    let none = question(Seq::empty(), Seq::empty());
    let n = a.len() as int;
    let m = b.len() as int;
    assert(none =~= a + b + c);
    assert(q.take(n) =~= none.take(n));
    assert(q.subrange(n, n + current.len()) =~= current);
    assert(q.subrange(n + current.len(), n + current.len() + m) =~= none.subrange(n, n + m));
    assert(q.subrange(n + current.len() + m, n + current.len() + m + latest.len()) =~= latest);
    assert(q.skip(n + current.len() + m + latest.len()) =~= none.skip(n + m));
}

/// What follows on the user's answer, given where the installer is.
pub fn update_action(accepted: bool, installer_url: &str) -> (action: UpdateAction)
    ensures
        action == action_on(accepted, installer_url@),
{
    if !accepted {
        UpdateAction::Nothing
    } else if !installer_url.is_empty() {
        UpdateAction::Install
    } else {
        UpdateAction::ShowReleases
    }
}

/// The characters of `s` as a text.
fn text_from(s: &[char]) -> (text: String)
    ensures
        text@ == s@,
{
    let mut text: String = String::new();
    let mut i: usize = 0;
    while i < s.len()
        invariant
            i <= s@.len(),
            text@ == s@.take(i as int),
        decreases s.len() - i,
    {
        text.push(s[i]);
        assert(text@ =~= s@.take(i + 1));
        i += 1;
    }
    assert(s@.take(i as int) =~= s@);
    text
}

/// What stands behind the last slash of `url`, and all of it where there is none.
pub open spec fn last_part(url: Seq<char>) -> Seq<char> {
    url.skip(rfind(url, '/') + 1)
}

/// Whatever stands before its last slash, a download goes by what stands behind.
pub proof fn law_download_goes_by_its_last_part(before: Seq<char>, name: Seq<char>)
    requires
        forall|i: int| 0 <= i < name.len() ==> #[trigger] name[i] != '/',
    ensures
        last_part(before.push('/') + name) == name,
        last_part(name) == name,
{
    let url = before.push('/') + name;
    let n = before.len() as int;
    law_places_are_the_first_and_the_last(url, '/');
    law_places_are_the_first_and_the_last(name, '/');
    assert(url[n] == '/');
    let r = rfind(url, '/');
    if r > n {
        assert(url[r] == name[r - n - 1]);
    }
    assert(r == n);
    assert(url.skip(n + 1) =~= name);
    assert(rfind(name, '/') == -1);
    assert(name.skip(0) =~= name);
}

/// The name under which a download is stored: what stands behind the last slash.
pub fn download_file_name(url: &str) -> (name: String)
    ensures
        name@ == last_part(url@),
{
    let chars: Vec<char> = chars_of(url);
    let len: usize = chars.len();
    let from: usize = match rfind_char(chars.as_slice(), '/') {
        Some(at) => at + 1,
        None => 0,
    };
    let name: &[char] = slice_subrange(chars.as_slice(), from, len);
    assert(name@ =~= url@.skip(rfind(url@, '/') + 1));
    text_from(name)
}

/// The directory to install into, without backslashes at its end, which the
/// installer would take for an escape.
pub fn install_directory(dir: &str) -> (stripped: String)
    ensures
        stripped@ == without_trailing(dir@, '\\'),
{
    let chars: Vec<char> = chars_of(dir);
    text_from(trim_end_char(chars.as_slice(), '\\'))
}

/// How much of a download has arrived, in percent.
pub open spec fn percent(downloaded: int, total: int) -> int {
    let exact = downloaded * 100 / total;
    if exact > 100 {
        100
    } else {
        exact
    }
}

/// A download in progress.
#[derive(Clone, Copy, Debug, PartialEq, Eq, Structural)]
pub struct Download {
    total: u64,
    downloaded: u64,
    last_percent: u64,
}

/// The mathematical reading of a [`Download`].
#[verifier::ext_equal]
pub struct DownloadState {
    /// Bytes to come in all; zero where that is not known.
    pub total: int,
    /// Bytes that have arrived.
    pub downloaded: int,
    /// The percentage that was reported last; zero at the start.
    pub last_percent: int,
}

impl DownloadState {
    /// The download once `bytes` more have arrived, and the percentage to report,
    /// if it is known and another than the last.
    pub open spec fn advance(self, bytes: int) -> (DownloadState, Option<int>) {
        let next = DownloadState { downloaded: self.downloaded + bytes, ..self };
        if self.total > 0 && percent(next.downloaded, self.total) != self.last_percent {
            let p = percent(next.downloaded, self.total);
            (DownloadState { last_percent: p, ..next }, Some(p))
        } else {
            (next, None)
        }
    }

    /// The percentage reported last is the present one, where it can be told.
    pub open spec fn wf(self) -> bool {
        &&& 0 <= self.total
        &&& 0 <= self.downloaded
        &&& self.total > 0 ==> self.last_percent == percent(self.downloaded, self.total)
    }
}

impl View for Download {
    type V = DownloadState;

    closed spec fn view(&self) -> DownloadState {
        DownloadState {
            total: self.total as int,
            downloaded: self.downloaded as int,
            last_percent: self.last_percent as int,
        }
    }
}

impl Download {
    /// A download of `total` bytes that has yet to begin; zero if it is not known
    /// how many there are.
    pub fn new(total: u64) -> (download: Download)
        ensures
            download@ == (DownloadState { total: total as int, downloaded: 0, last_percent: 0 }),
            download@.wf(),
    {
        Download { total, downloaded: 0, last_percent: 0 }
    }

    /// How many bytes have arrived.
    pub fn downloaded(&self) -> (bytes: u64)
        ensures
            bytes == self@.downloaded,
    {
        self.downloaded
    }

    /// `bytes` more have arrived. Returns the percentage to report, if any.
    pub fn advance(&mut self, bytes: u64) -> (report: Option<u64>)
        requires
            old(self)@.wf(),
            old(self)@.downloaded + bytes <= u64::MAX,
        ensures
            final(self)@.wf(),
            final(self)@ == old(self)@.advance(bytes as int).0,
            match report {
                Some(p) => old(self)@.advance(bytes as int).1 == Some(p as int),
                None => old(self)@.advance(bytes as int).1 is None,
            },
    {
        self.downloaded += bytes;
        if self.total == 0 {
            return None;
        }
        let exact: u128 = self.downloaded as u128 * 100 / self.total as u128;
        let now: u64 = if exact > 100 {
            100
        } else {
            exact as u64
        };
        if now != self.last_percent {
            self.last_percent = now;
            Some(now)
        } else {
            None
        }
    }
}

/// Percentages that are reported go up, and never past a hundred.
pub proof fn law_progress_goes_up(s: DownloadState, bytes: int)
    requires
        s.wf(),
        bytes >= 0,
        s.advance(bytes).1 is Some,
    ensures
        s.last_percent < s.advance(bytes).1->0 <= 100,
{
    let a = s.downloaded * 100;
    let b = (s.downloaded + bytes) * 100;
    assert(a / s.total <= b / s.total) by (nonlinear_arith)
        requires
            a <= b,
            s.total > 0,
    ;
}

/// A percentage is the largest whole one that is not past what has arrived, up to a
/// hundred, which it is from the moment that everything is there.
pub proof fn law_percentage_is_the_whole_part(downloaded: int, total: int)
    requires
        downloaded >= 0,
        total > 0,
    ensures
        downloaded >= total <==> percent(downloaded, total) == 100,
        0 <= percent(downloaded, total) <= 100,
        downloaded < total ==> percent(downloaded, total) * total <= 100 * downloaded
            < percent(downloaded, total) * total + total,
{
    let n = downloaded * 100;
    vstd::arithmetic::div_mod::lemma_fundamental_div_mod(n, total);
    vstd::arithmetic::div_mod::lemma_mod_bound(n, total);
    let q = n / total;
    assert(total * q == q * total) by (nonlinear_arith);
    if downloaded >= total {
        assert(q >= 100) by (nonlinear_arith)
            requires
                n == total * q + n % total,
                0 <= n % total < total,
                n >= 100 * total,
                total > 0,
        ;
    } else {
        assert(q < 100) by (nonlinear_arith)
            requires
                n == total * q + n % total,
                0 <= n % total,
                n < 100 * total,
                total > 0,
        ;
    }
    assert(q >= 0) by (nonlinear_arith)
        requires
            n == total * q + n % total,
            n % total < total,
            n >= 0,
            total > 0,
    ;
}

/// What arrives adds up. The percentage is reported exactly when it is known and another
/// than the one before, so that what was reported last is always the present one.
pub proof fn law_download_adds_up(s: DownloadState, a: int, b: int)
    requires
        s.wf(),
        a >= 0,
        b >= 0,
    ensures
        ({
            let next = s.advance(a).0;
            let report = s.advance(a).1;
            &&& next.downloaded - s.downloaded == a
            &&& next.total == s.total
            &&& next.wf()
            &&& s.total == 0 ==> report is None && next.last_percent == s.last_percent
            &&& s.total > 0 ==> next.last_percent == percent(s.downloaded + a, s.total)
            &&& s.total > 0 ==> (report is Some <==> percent(s.downloaded + a, s.total)
                != s.last_percent)
            &&& report is Some ==> report == Some(next.last_percent)
            &&& next.advance(b).0 == s.advance(a + b).0
        }),
{
}

} // verus!
