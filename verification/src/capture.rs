//! Screen-capture decisions: which display or window a request designates,
//! and how failures of the capture service are reported. The capture
//! itself is done by the system's screen-capture service.

use vstd::prelude::*;

verus! {

/// Errors of a capture request.
#[derive(Debug)]
pub enum CaptureError {
    /// The "Screen Recording" permission has not been granted.
    PermissionDenied(String),
    NotFound(String),
    Failed(String),
}

/// The user-facing text of a capture error.
pub open spec fn capture_error_text(e: CaptureError) -> Seq<char> {
    match e {
        CaptureError::PermissionDenied(m) => "permission refusée : "@ + m@,
        CaptureError::NotFound(m) => "introuvable : "@ + m@,
        CaptureError::Failed(m) => "échec de capture : "@ + m@,
    }
}

impl CaptureError {
    /// The user-facing text of the error.
    pub fn message(&self) -> (s: String)
        ensures
            s@ == capture_error_text(*self),
    {
        match self {
            CaptureError::PermissionDenied(m) => String::from_str("permission refusée : ").concat(
                m.as_str(),
            ),
            CaptureError::NotFound(m) => String::from_str("introuvable : ").concat(m.as_str()),
            CaptureError::Failed(m) => String::from_str("échec de capture : ").concat(m.as_str()),
        }
    }
}

/// A failure reported by the capture service, as plain values.
pub enum CaptureFailure {
    PermissionDenied(String),
    NoShareableContent(String),
    DisplayNotFound(String),
    WindowNotFound(String),
    /// Any other failure, with the service's description of it.
    Other(String),
}

/// How a service failure is reported: a missing permission or no shareable
/// content means the permission was refused; a missing display or window
/// means not found; anything else is a failed capture.
pub open spec fn reported_error(f: CaptureFailure) -> CaptureError {
    match f {
        CaptureFailure::PermissionDenied(m) => CaptureError::PermissionDenied(m),
        CaptureFailure::NoShareableContent(m) => CaptureError::PermissionDenied(m),
        CaptureFailure::DisplayNotFound(m) => CaptureError::NotFound(m),
        CaptureFailure::WindowNotFound(m) => CaptureError::NotFound(m),
        CaptureFailure::Other(m) => CaptureError::Failed(m),
    }
}

/// Maps a failure of the capture service to the error reported to the
/// user.
pub fn map_capture_failure(f: CaptureFailure) -> (e: CaptureError)
    ensures
        e == reported_error(f),
{
    match f {
        CaptureFailure::PermissionDenied(m) | CaptureFailure::NoShareableContent(m) => {
            CaptureError::PermissionDenied(m)
        },
        CaptureFailure::DisplayNotFound(m) | CaptureFailure::WindowNotFound(m) => {
            CaptureError::NotFound(m)
        },
        CaptureFailure::Other(m) => CaptureError::Failed(m),
    }
}

/// A display available for capture.
#[derive(Clone, Debug)]
pub struct DisplayInfo {
    pub id: u32,
    pub width: u32,
    pub height: u32,
}

/// The decimal digit `d` (0 to 9) as a character.
pub open spec fn digit_char(d: int) -> char {
    (48 + d) as char
}

/// Decimal notation of `n`, without leading zeros.
pub open spec fn decimal(n: nat) -> Seq<char>
    decreases n,
{
    if n < 10 {
        seq![digit_char(n as int)]
    } else {
        decimal(n / 10).push(digit_char((n % 10) as int))
    }
}

/// The decimal digit `d` as a one-character string.
fn digit_text(d: u32) -> (s: &'static str)
    requires
        d < 10,
    ensures
        s@ == seq![digit_char(d as int)],
{
    proof {
        reveal_strlit("0");
        reveal_strlit("1");
        reveal_strlit("2");
        reveal_strlit("3");
        reveal_strlit("4");
        reveal_strlit("5");
        reveal_strlit("6");
        reveal_strlit("7");
        reveal_strlit("8");
        reveal_strlit("9");
    }
    if d == 0 {
        "0"
    } else if d == 1 {
        "1"
    } else if d == 2 {
        "2"
    } else if d == 3 {
        "3"
    } else if d == 4 {
        "4"
    } else if d == 5 {
        "5"
    } else if d == 6 {
        "6"
    } else if d == 7 {
        "7"
    } else if d == 8 {
        "8"
    } else {
        "9"
    }
}

/// `n` written in decimal, without leading zeros.
fn decimal_text(n: u32) -> (s: String)
    ensures
        s@ == decimal(n as nat),
    decreases n,
{
    if n < 10 {
        String::from_str(digit_text(n))
    } else {
        let mut s = decimal_text(n / 10);
        s.append(digit_text(n % 10));
        s
    }
}

/// Position of the first id equal to `id` in `ids`, or -1.
pub open spec fn first_index_of(ids: Seq<u32>, id: u32) -> int
    decreases ids.len(),
{
    if ids.len() == 0 {
        -1
    } else if ids.last() == id && first_index_of(ids.drop_last(), id) < 0 {
        ids.len() - 1
    } else {
        first_index_of(ids.drop_last(), id)
    }
}

fn find_id(ids: &Vec<u32>, id: u32) -> (r: Option<usize>)
    ensures
        r is None <==> first_index_of(ids@, id) < 0,
        r matches Some(i) ==> i == first_index_of(ids@, id),
{
    let mut i: usize = 0;
    while i < ids.len()
        invariant
            i <= ids@.len(),
            first_index_of(ids@.take(i as int), id) < 0,
        decreases ids@.len() - i,
    {
        if ids[i] == id {
            proof {
                lemma_first_index_extend(ids@, i as int, id);
            }
            return Some(i);
        }
        proof {
            lemma_first_index_extend(ids@, i as int, id);
        }
        i += 1;
    }
    assert(ids@.take(ids@.len() as int) =~= ids@);
    None
}

proof fn lemma_first_index_extend(ids: Seq<u32>, i: int, id: u32)
    requires
        0 <= i < ids.len(),
        first_index_of(ids.take(i), id) < 0,
    ensures
        ids[i] == id ==> first_index_of(ids, id) == i,
        ids[i] != id ==> first_index_of(ids.take(i + 1), id) < 0,
{
    assert(ids.take(i + 1).drop_last() =~= ids.take(i));
    if ids[i] == id {
        lemma_first_index_prefix(ids, i + 1, id);
    }
}

proof fn lemma_first_index_prefix(ids: Seq<u32>, n: int, id: u32)
    requires
        0 <= n <= ids.len(),
        0 <= first_index_of(ids.take(n), id),
    ensures
        first_index_of(ids, id) == first_index_of(ids.take(n), id),
    decreases ids.len() - n,
{
    if n < ids.len() {
        assert(ids.take(n + 1).drop_last() =~= ids.take(n));
        lemma_first_index_prefix(ids, n + 1, id);
    } else {
        assert(ids.take(n) =~= ids);
    }
}

/// `first_index_of` finds the first occurrence: when it is not negative it
/// is an index holding `id` with no earlier index holding it; otherwise it
/// is -1 and no index holds `id`.
pub proof fn lemma_first_index_is_first(ids: Seq<u32>, id: u32)
    ensures
        first_index_of(ids, id) >= 0 ==> {
            &&& first_index_of(ids, id) < ids.len()
            &&& ids[first_index_of(ids, id)] == id
            &&& forall|i: int| 0 <= i < first_index_of(ids, id) ==> ids[i] != id
        },
        first_index_of(ids, id) < 0 ==> first_index_of(ids, id) == -1 && forall|i: int|
            0 <= i < ids.len() ==> ids[i] != id,
    decreases ids.len(),
{
    if ids.len() > 0 {
        let rest = ids.drop_last();
        lemma_first_index_is_first(rest, id);
        assert forall|i: int| 0 <= i < rest.len() implies rest[i] == ids[i] by {}
    }
}

/// Every digit of a decimal notation is one of `0` to `9`, a number below
/// 10 takes one digit, and a larger one never starts with `0` and has one
/// digit more than its tenth.
pub proof fn lemma_decimal_digits(n: nat)
    ensures
        forall|i: int| 0 <= i < decimal(n).len() ==> '0' <= #[trigger] decimal(n)[i] <= '9',
        n < 10 ==> decimal(n).len() == 1,
        n >= 10 ==> decimal(n).len() == decimal(n / 10).len() + 1,
        n > 0 ==> decimal(n)[0] != '0',
        decimal(n).len() >= 1,
    decreases n,
{
    if n >= 10 {
        lemma_decimal_digits(n / 10);
    }
}

/// Identifiers of a list of displays, in order.
pub open spec fn display_ids(displays: Seq<DisplayInfo>) -> Seq<u32> {
    displays.map_values(|d: DisplayInfo| d.id)
}

/// The outcome of choosing a display: the first display with the requested
/// id, or the first display when none is requested; otherwise a
/// `NotFound` error naming the requested display, or saying that no
/// display is available.
pub open spec fn display_choice(displays: Seq<DisplayInfo>, display_id: Option<u32>) -> Result<
    int,
    Seq<char>,
> {
    match display_id {
        Some(id) => {
            let i = first_index_of(display_ids(displays), id);
            if i >= 0 {
                Ok(i)
            } else {
                Err("écran "@ + decimal(id as nat))
            }
        },
        None => {
            if displays.len() > 0 {
                Ok(0)
            } else {
                Err("aucun écran disponible"@)
            }
        },
    }
}

/// Chooses the display a capture request designates: the one with
/// `display_id` (see `list_displays`), or the main (first) display when no
/// id is given. Returns its position in `displays`.
pub fn select_display(displays: &Vec<DisplayInfo>, display_id: Option<u32>) -> (r: Result<
    usize,
    CaptureError,
>)
    ensures
        match display_choice(displays@, display_id) {
            Ok(i) => r == Ok::<usize, CaptureError>(i as usize),
            Err(text) => r matches Err(CaptureError::NotFound(m)) && m@ == text,
        },
{
    match display_id {
        Some(id) => {
            let mut ids: Vec<u32> = Vec::new();
            let mut j: usize = 0;
            while j < displays.len()
                invariant
                    j <= displays@.len(),
                    ids@ == display_ids(displays@).take(j as int),
                decreases displays@.len() - j,
            {
                ids.push(displays[j].id);
                j += 1;
                assert(ids@ =~= display_ids(displays@).take(j as int));
            }
            assert(ids@ =~= display_ids(displays@));
            match find_id(&ids, id) {
                Some(i) => Ok(i),
                None => Err(CaptureError::NotFound(String::from_str("écran ").concat(decimal_text(id).as_str()))),
            }
        },
        None => {
            if displays.len() > 0 {
                Ok(0)
            } else {
                Err(CaptureError::NotFound(String::from_str("aucun écran disponible")))
            }
        },
    }
}

/// Finds the window a capture request designates by its id (see
/// `list_windows`) among the ids of the shareable windows. Returns its
/// position, or a `NotFound` error naming the window.
pub fn find_window(window_ids: &Vec<u32>, window_id: u32) -> (r: Result<usize, CaptureError>)
    ensures
        first_index_of(window_ids@, window_id) >= 0 ==> r == Ok::<usize, CaptureError>(
            first_index_of(window_ids@, window_id) as usize,
        ),
        first_index_of(window_ids@, window_id) < 0 ==> (r matches Err(CaptureError::NotFound(m))
            && m@ == "fenêtre "@ + decimal(window_id as nat)),
{
    match find_id(window_ids, window_id) {
        Some(i) => Ok(i),
        None => Err(CaptureError::NotFound(String::from_str("fenêtre ").concat(decimal_text(window_id).as_str()))),
    }
}

} // verus!
