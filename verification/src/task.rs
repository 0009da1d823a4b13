//! The task record: title, optional description, optional due date, and a
//! completion flag. A due date keeps both the instant it denotes (seconds and
//! nanoseconds since the Unix epoch, resolved to UTC) and the RFC 3339 text it
//! was written as.

use vstd::prelude::*;

verus! {

/// What `chrono::DateTime::parse_from_rfc3339` yields on a given string:
/// `None` where the string is not a valid RFC 3339 timestamp, otherwise the
/// denoted instant as (seconds, nanoseconds) since the Unix epoch in UTC.
/// The result depends on the characters of the string alone.
pub uninterp spec fn rfc3339_parse_of(s: Seq<char>) -> Option<(int, int)>;

/// Relies on `chrono::DateTime::parse_from_rfc3339`: parses an RFC 3339
/// timestamp; `timestamp`/`timestamp_subsec_nanos` give the instant it
/// denotes in UTC. The outcome is a function of the input string alone.
#[verifier::external_body]
fn parse_rfc3339_utc(s: &str) -> (r: Option<(i64, u32)>)
    ensures
        r is Some <==> rfc3339_parse_of(s@) is Some,
        r matches Some(p) ==> rfc3339_parse_of(s@) == Some((p.0 as int, p.1 as int)),
{
    match chrono::DateTime::parse_from_rfc3339(s) {
        Ok(dt) => Some((dt.timestamp(), dt.timestamp_subsec_nanos())),
        Err(_) => None,
    }
}

/// Mathematical model of a due date: the instant (seconds, nanoseconds since
/// the Unix epoch, UTC) and the RFC 3339 text it came from.
#[verifier::ext_equal]
pub struct DueV {
    pub secs: int,
    pub nanos: int,
    pub text: Seq<char>,
}

/// A due date model is well formed when its text is RFC 3339 and denotes
/// exactly the instant it carries.
pub open spec fn due_wf(d: DueV) -> bool {
    rfc3339_parse_of(d.text) == Some((d.secs, d.nanos))
}

/// A due date: an instant in UTC together with the RFC 3339 text that named
/// it. Values exist only through [`DueDate::parse`], so the text and the
/// instant always agree.
pub struct DueDate {
    secs: i64,
    nanos: u32,
    text: String,
}

impl View for DueDate {
    type V = DueV;

    closed spec fn view(&self) -> DueV {
        DueV { secs: self.secs as int, nanos: self.nanos as int, text: self.text@ }
    }
}

impl DueDate {
    #[verifier::type_invariant]
    spec fn inv(self) -> bool {
        due_wf(self@)
    }

    /// Parses an RFC 3339 timestamp; `None` exactly on text that is not one.
    pub fn parse(text: String) -> (r: Option<DueDate>)
        ensures
            r is Some <==> rfc3339_parse_of(text@) is Some,
            r matches Some(d) ==> d@.text == text@ && due_wf(d@),
    {
        match parse_rfc3339_utc(text.as_str()) {
            Some(p) => Some(DueDate { secs: p.0, nanos: p.1, text }),
            None => None,
        }
    }

    /// Seconds since the Unix epoch of the denoted instant.
    pub fn secs(&self) -> (r: i64)
        ensures
            r as int == self@.secs,
    {
        proof {
            use_type_invariant(self);
        }
        self.secs
    }

    /// Nanosecond part of the denoted instant.
    pub fn nanos(&self) -> (r: u32)
        ensures
            r as int == self@.nanos,
    {
        self.nanos
    }

    /// The RFC 3339 text this due date was written as.
    pub fn text(&self) -> (r: &str)
        ensures
            r@ == self@.text,
            due_wf(self@),
    {
        proof {
            use_type_invariant(self);
        }
        self.text.as_str()
    }

}

/// Mathematical model of a task.
#[verifier::ext_equal]
pub struct TaskV {
    pub title: Seq<char>,
    pub description: Option<Seq<char>>,
    pub due: Option<DueV>,
    pub completed: bool,
}

/// A task model is well formed when its due date, if any, is.
pub open spec fn task_wf(t: TaskV) -> bool {
    t.due matches Some(d) ==> due_wf(d)
}

/// One to-do item. Identity is positional: the task carries no identifier of
/// its own.
pub struct Task {
    pub title: String,
    pub description: Option<String>,
    pub due_date: Option<DueDate>,
    pub completed: bool,
}

impl View for Task {
    type V = TaskV;

    open spec fn view(&self) -> TaskV {
        TaskV {
            title: self.title@,
            description: match self.description {
                Some(s) => Some(s@),
                None => None,
            },
            due: match self.due_date {
                Some(d) => Some(d@),
                None => None,
            },
            completed: self.completed,
        }
    }
}

impl Task {
    /// Builds a task from its parts; the completion flag starts `false`.
    pub fn new(title: String, description: Option<String>, due_date: Option<DueDate>) -> (r:
        Task)
        ensures
            r@.title == title@,
            r@.description == (match description {
                Some(s) => Some(s@),
                None => None::<Seq<char>>,
            }),
            r@.due == (match due_date {
                Some(d) => Some(d@),
                None => None::<DueV>,
            }),
            r@.completed == false,
    {
        Task { title, description, due_date, completed: false }
    }

    /// One task as the view subcommand prints it.
    pub fn display_block(&self) -> (r: String)
        ensures
            r@ == display_block_of(self@),
    {
        let mut out: Vec<char> = Vec::new();
        crate::store::push_lit(&mut out, "Title: ");
        crate::store::push_lit(&mut out, self.title.as_str());
        crate::store::push_lit(&mut out, "\nDescription: ");
        match &self.description {
            Option::Some(d) => crate::store::push_lit(&mut out, d.as_str()),
            Option::None => crate::store::push_lit(&mut out, "No description"),
        }
        crate::store::push_lit(&mut out, "\nDue Date: ");
        match &self.due_date {
            Option::Some(d) => crate::store::push_lit(&mut out, d.text()),
            Option::None => crate::store::push_lit(&mut out, "No due date"),
        }
        crate::store::push_lit(&mut out, "\nCompleted: ");
        if self.completed {
            crate::store::push_lit(&mut out, "true");
        } else {
            crate::store::push_lit(&mut out, "false");
        }
        crate::store::push_lit(&mut out, "\n");
        proof {
            assert(out@ =~= display_block_of(self@));
        }
        crate::store::chars_to_string(&out)
    }
}

/// The four display lines of a task, title, description, due date and
/// completion flag, absent fields shown as `No description` / `No due date`.
pub open spec fn display_block_of(t: TaskV) -> Seq<char> {
    "Title: "@ + t.title + "\nDescription: "@ + (match t.description {
        Option::Some(d) => d,
        Option::None => "No description"@,
    }) + "\nDue Date: "@ + (match t.due {
        Option::Some(d) => d.text,
        Option::None => "No due date"@,
    }) + "\nCompleted: "@ + (if t.completed {
        "true"@
    } else {
        "false"@
    }) + "\n"@
}

} // verus!
