//! Prompts for the language model that reads the radio: how a prompt is put
//! together from its files and how the replies of the model are taken apart.

use vstd::prelude::*;
use vstd::string::*;

use crate::aircraft::AircraftState;

verus! {

/// An example of a transmission and of the answer wanted for it.
#[derive(Clone, Debug, PartialEq, Eq)]
pub struct Example {
    pub user: String,
    pub assistant: String,
}

impl Example {
    /// The example as it is written into a prompt.
    pub open spec fn text(&self) -> Seq<char> {
        "User: "@ + self.user@ + "\n Assistant:"@ + self.assistant@
    }

    /// Writes the example as a line of a prompt.
    pub fn to_text(&self) -> (r: String)
        ensures
            r@ == self.text(),
    {
        let mut line = String::from_str("User: ");
        line.append(self.user.as_str());
        line.append("\n Assistant:");
        line.append(self.assistant.as_str());
        line
    }
}

/// A prompt file: the files that it imports, its own lines and its examples.
#[derive(Clone, Debug, PartialEq, Eq)]
pub struct PromptObject {
    pub imports: Vec<String>,
    pub prompt: Vec<String>,
    pub examples: Vec<Example>,
}

/// Why a prompt could not be loaded.
#[derive(Clone, Debug, PartialEq, Eq)]
pub enum LoadPromptError {
    /// The file is no prompt file: what the parser said, the path and the
    /// text of the file.
    Deserialize(String, String, String),
    /// The file could not be read.
    FS(String),
}

/// A transmission taken apart: who is called and what is asked.
#[derive(Clone, Debug, PartialEq, Eq)]
pub struct CallsignAndRequest {
    pub callsign: String,
    pub request: String,
}

/// A command of a reply that names its kind and its value.
#[derive(Clone, Debug, PartialEq, Eq)]
pub struct TypeValue {
    command: String,
    value: String,
}

impl TypeValue {
    /// A command of the given kind with the given value.
    pub fn new(command: String, value: String) -> (r: TypeValue)
        ensures
            r.command() == command,
            r.value() == value,
    {
        TypeValue { command, value }
    }

    /// The kind of the command.
    pub closed spec fn command(&self) -> String {
        self.command
    }

    /// The value of the command.
    pub closed spec fn value(&self) -> String {
        self.value
    }
}

/// Why the model gave no answer.
#[derive(Clone, Debug, PartialEq, Eq)]
pub enum Error {
    LoadPromptError(LoadPromptError),
    /// The service failed: what it said.
    OpenAI(String),
    /// The service answered nothing to the prompt.
    NoResult(String),
}

/// The lines of a list of strings.
pub open spec fn lines_view(lines: Seq<String>) -> Seq<Seq<char>> {
    lines.map_values(|line: String| line@)
}

/// All lines of all lists, one list after the other.
pub open spec fn flattened(lists: Seq<Vec<String>>) -> Seq<Seq<char>>
    decreases lists.len(),
{
    if lists.len() == 0 {
        Seq::empty()
    } else {
        flattened(lists.drop_last()) + lines_view(lists.last()@)
    }
}

/// The examples as lines of a prompt.
pub open spec fn example_lines(examples: Seq<Example>) -> Seq<Seq<char>> {
    examples.map_values(|example: Example| example.text())
}

/// The lines joined, a line feed between each two.
pub open spec fn joined_lines(lines: Seq<Seq<char>>) -> Seq<char>
    decreases lines.len(),
{
    if lines.len() == 0 {
        Seq::empty()
    } else if lines.len() == 1 {
        lines[0]
    } else {
        joined_lines(lines.drop_last()) + "\n"@ + lines.last()
    }
}

/// The language model front end.
#[derive(Clone, Copy, Debug, PartialEq, Eq)]
pub struct Prompter;

/// The mode of the prompt for an aircraft in flight.
pub open spec fn air_mode() -> Seq<char> {
    "air"@
}

/// The mode of the prompt for an aircraft on the ground.
pub open spec fn ground_mode() -> Seq<char> {
    "ground"@
}

/// Appends a line to a list of lines.
fn push_line(lines: &mut Vec<String>, line: String)
    ensures
        lines_view(final(lines)@) == lines_view(old(lines)@).push(line@),
{
    lines.push(line);
    assert(lines_view(lines@) =~= lines_view(old(lines)@).push(line@));
}

impl Prompter {
    /// Puts a prompt together: the lines of the files that it imports, in
    /// the order of the imports, then its own lines, then its examples.
    pub fn load_prompt(object: &PromptObject, imported: &Vec<Vec<String>>) -> (r: Vec<String>)
        ensures
            lines_view(r@) == flattened(imported@) + lines_view(object.prompt@) + example_lines(
                object.examples@,
            ),
    {
        let mut full: Vec<String> = Vec::new();
        let mut i: usize = 0;
        assert(lines_view(full@) =~= flattened(imported@.take(0)));
        while i < imported.len()
            invariant
                i <= imported@.len(),
                lines_view(full@) == flattened(imported@.take(i as int)),
            decreases imported.len() - i,
        {
            let list = &imported[i];
            let ghost before = lines_view(full@);
            let mut k: usize = 0;
            assert(lines_view(full@) =~= before + lines_view(list@.take(0)));
            while k < list.len()
                invariant
                    k <= list@.len(),
                    lines_view(full@) == before + lines_view(list@.take(k as int)),
                decreases list.len() - k,
            {
                push_line(&mut full, list[k].clone());
                assert(lines_view(list@.take(k + 1)) =~= lines_view(list@.take(k as int)).push(
                    list@[k as int]@,
                ));
                assert(lines_view(full@) =~= before + lines_view(list@.take(k + 1)));
                k = k + 1;
            }
            assert(list@.take(k as int) =~= list@);
            assert(imported@.take(i + 1).drop_last() =~= imported@.take(i as int));
            i = i + 1;
        }
        assert(imported@.take(i as int) =~= imported@);
        let ghost first = lines_view(full@);
        let mut k: usize = 0;
        assert(lines_view(full@) =~= first + lines_view(object.prompt@.take(0)));
        while k < object.prompt.len()
            invariant
                k <= object.prompt@.len(),
                lines_view(full@) == first + lines_view(object.prompt@.take(k as int)),
            decreases object.prompt.len() - k,
        {
            push_line(&mut full, object.prompt[k].clone());
            assert(lines_view(object.prompt@.take(k + 1)) =~= lines_view(
                object.prompt@.take(k as int),
            ).push(object.prompt@[k as int]@));
            assert(lines_view(full@) =~= first + lines_view(object.prompt@.take(k + 1)));
            k = k + 1;
        }
        assert(object.prompt@.take(k as int) =~= object.prompt@);
        let ghost second = lines_view(full@);
        let mut k: usize = 0;
        assert(lines_view(full@) =~= second + example_lines(object.examples@.take(0)));
        while k < object.examples.len()
            invariant
                k <= object.examples@.len(),
                lines_view(full@) == second + example_lines(object.examples@.take(k as int)),
            decreases object.examples.len() - k,
        {
            push_line(&mut full, object.examples[k].to_text());
            assert(example_lines(object.examples@.take(k + 1)) =~= example_lines(
                object.examples@.take(k as int),
            ).push(object.examples@[k as int].text()));
            assert(lines_view(full@) =~= second + example_lines(object.examples@.take(k + 1)));
            k = k + 1;
        }
        assert(object.examples@.take(k as int) =~= object.examples@);
        full
    }

    /// Joins the lines of a prompt, a line feed between each two.
    pub fn join_lines(lines: &Vec<String>) -> (r: String)
        ensures
            r@ == joined_lines(lines_view(lines@)),
    {
        let mut text = String::new();
        let mut i: usize = 0;
        assert(lines_view(lines@).take(0) =~= Seq::empty());
        while i < lines.len()
            invariant
                i <= lines@.len(),
                text@ == joined_lines(lines_view(lines@).take(i as int)),
            decreases lines.len() - i,
        {
            let ghost all = lines_view(lines@);
            assert(all.take(i + 1).drop_last() =~= all.take(i as int));
            assert(all.take(i + 1).last() == lines@[i as int]@);
            if i > 0 {
                text.append("\n");
            } else {
                assert(all.take(1)[0] == lines@[0]@);
                assert(text@ + lines@[0]@ =~= lines@[0]@);
            }
            text.append(lines[i].as_str());
            i = i + 1;
        }
        assert(lines_view(lines@).take(i as int) =~= lines_view(lines@));
        text
    }

    /// Puts a prompt together as one text.
    pub fn load_prompt_as_string(object: &PromptObject, imported: &Vec<Vec<String>>) -> (r: String)
        ensures
            r@ == joined_lines(
                flattened(imported@) + lines_view(object.prompt@) + example_lines(
                    object.examples@,
                ),
            ),
    {
        let lines = Prompter::load_prompt(object, imported);
        Prompter::join_lines(&lines)
    }

    /// The read-back that the model gave, or the prompt as an error where it
    /// gave none.
    pub fn generate_readback(prompt: String, reply: Option<String>) -> (r: Result<String, Error>)
        ensures
            r == match reply {
                Some(text) => Ok::<String, Error>(text),
                None => Err::<String, Error>(Error::NoResult(prompt)),
            },
    {
        match reply {
            Some(text) => Ok(text),
            None => Err(Error::NoResult(prompt)),
        }
    }

    /// The mode of the prompt for an aircraft: "air" where it flies or
    /// lands, "ground" where it taxis or is parked.
    pub fn prompt_mode(state: &AircraftState) -> (r: &'static str)
        ensures
            r@ == if state@ is Flying || state@ is Landing {
                air_mode()
            } else {
                ground_mode()
            },
    {
        match state {
            AircraftState::Flying => "air",
            AircraftState::Landing { .. } => "air",
            _ => "ground",
        }
    }

    /// The path of the prompt file of a mode.
    pub fn prompt_path(mode: &str) -> (r: String)
        ensures
            r@ == "assets/prompts/"@ + mode@ + ".json"@,
    {
        let mut path = String::from_str("assets/prompts/");
        path.append(mode);
        path.append(".json");
        path
    }
}

/// Whether a character is white space.
pub open spec fn is_space(c: char) -> bool {
    let code = c as u32;
    ||| 0x9 <= code <= 0xd
    ||| code == 0x20
    ||| code == 0x85
    ||| code == 0xa0
    ||| code == 0x1680
    ||| 0x2000 <= code <= 0x200a
    ||| code == 0x2028
    ||| code == 0x2029
    ||| code == 0x202f
    ||| code == 0x205f
    ||| code == 0x3000
}

fn is_white_space(c: char) -> (r: bool)
    ensures
        r == is_space(c),
{
    let code = c as u32;
    (0x9 <= code && code <= 0xd) || code == 0x20 || code == 0x85 || code == 0xa0 || code == 0x1680
        || (0x2000 <= code && code <= 0x200a) || code == 0x2028 || code == 0x2029 || code
        == 0x202f || code == 0x205f || code == 0x3000
}

/// The index of the first `wanted` in `text` from `from` on and before
/// `end`, or `end` where there is none.
pub open spec fn next_at(text: Seq<char>, wanted: char, from: int, end: int) -> int
    decreases end - from,
{
    if from >= end {
        end
    } else if text[from] == wanted {
        from
    } else {
        next_at(text, wanted, from + 1, end)
    }
}

/// The index of the first character from `from` on and before `end` that
/// is no white space, or `end`.
pub open spec fn trimmed_start(text: Seq<char>, from: int, end: int) -> int
    decreases end - from,
{
    if from >= end {
        end
    } else if !is_space(text[from]) {
        from
    } else {
        trimmed_start(text, from + 1, end)
    }
}

/// The index behind the last character before `end` and not before `from`
/// that is no white space, or `from`.
pub open spec fn trimmed_end(text: Seq<char>, from: int, end: int) -> int
    decreases end - from,
{
    if end <= from {
        from
    } else if !is_space(text[end - 1]) {
        end
    } else {
        trimmed_end(text, from, end - 1)
    }
}

/// The characters from `from` on and before `end` that are no blanks.
pub open spec fn unspaced(text: Seq<char>, from: int, end: int) -> Seq<char>
    decreases end - from,
{
    if end <= from {
        Seq::empty()
    } else if text[end - 1] == ' ' {
        unspaced(text, from, end - 1)
    } else {
        unspaced(text, from, end - 1).push(text[end - 1])
    }
}

/// The mathematical value of a `CallsignAndRequest`.
pub struct CallsignAndRequestView {
    pub callsign: Seq<char>,
    pub request: Seq<char>,
}

impl View for CallsignAndRequest {
    type V = CallsignAndRequestView;

    open spec fn view(&self) -> CallsignAndRequestView {
        CallsignAndRequestView { callsign: self.callsign@, request: self.request@ }
    }
}

/// The transmission in the piece of `text` from `from` on and before `end`:
/// the piece without the white space round it; the callsign what stands
/// before its first blank; the request what stands behind that, without
/// any blank.
pub open spec fn request_at(text: Seq<char>, from: int, end: int) -> CallsignAndRequestView {
    let a = trimmed_start(text, from, end);
    let b = trimmed_end(text, a, end);
    let blank = next_at(text, ' ', a, b);
    CallsignAndRequestView { callsign: text.subrange(a, blank), request: unspaced(text, blank, b) }
}

/// The transmissions in `text` from `from` on: one for each piece between
/// semicolons.
pub open spec fn requests_from(text: Seq<char>, from: int) -> Seq<CallsignAndRequestView>
    decreases text.len() - from,
{
    let end = next_at(text, ';', from, text.len() as int);
    if from > text.len() || end < from {
        Seq::empty()
    } else if end >= text.len() {
        seq![request_at(text, from, text.len() as int)]
    } else {
        seq![request_at(text, from, end)] + requests_from(text, end + 1)
    }
}

/// The values of a list of transmissions.
pub open spec fn requests_view(requests: Seq<CallsignAndRequest>) -> Seq<CallsignAndRequestView> {
    requests.map_values(|r: CallsignAndRequest| r@)
}

fn find_next(text: &str, wanted: char, from: usize, end: usize) -> (r: usize)
    requires
        from <= end <= text@.len(),
    ensures
        r == next_at(text@, wanted, from as int, end as int),
        from <= r <= end,
{
    let mut i: usize = from;
    while i < end
        invariant
            from <= i <= end <= text@.len(),
            next_at(text@, wanted, from as int, end as int) == next_at(
                text@,
                wanted,
                i as int,
                end as int,
            ),
        decreases end - i,
    {
        if text.get_char(i) == wanted {
            return i;
        }
        i = i + 1;
    }
    i
}

fn trim_start(text: &str, from: usize, end: usize) -> (r: usize)
    requires
        from <= end <= text@.len(),
    ensures
        r == trimmed_start(text@, from as int, end as int),
        from <= r <= end,
{
    let mut i: usize = from;
    while i < end
        invariant
            from <= i <= end <= text@.len(),
            trimmed_start(text@, from as int, end as int) == trimmed_start(
                text@,
                i as int,
                end as int,
            ),
        decreases end - i,
    {
        if !is_white_space(text.get_char(i)) {
            return i;
        }
        i = i + 1;
    }
    i
}

fn trim_end(text: &str, from: usize, end: usize) -> (r: usize)
    requires
        from <= end <= text@.len(),
    ensures
        r == trimmed_end(text@, from as int, end as int),
        from <= r <= end,
{
    let mut i: usize = end;
    while i > from
        invariant
            from <= i <= end <= text@.len(),
            trimmed_end(text@, from as int, end as int) == trimmed_end(
                text@,
                from as int,
                i as int,
            ),
        decreases i - from,
    {
        if !is_white_space(text.get_char(i - 1)) {
            return i;
        }
        i = i - 1;
    }
    i
}

fn without_blanks(text: &str, from: usize, end: usize) -> (r: String)
    requires
        from <= end <= text@.len(),
    ensures
        r@ == unspaced(text@, from as int, end as int),
{
    let mut out = String::new();
    let mut i: usize = from;
    while i < end
        invariant
            from <= i <= end <= text@.len(),
            out@ == unspaced(text@, from as int, i as int),
        decreases end - i,
    {
        if text.get_char(i) != ' ' {
            let one = text.substring_char(i, i + 1);
            assert(one@ =~= seq![text@[i as int]]);
            out.append(one);
            assert(out@ =~= unspaced(text@, from as int, i as int).push(text@[i as int]));
        }
        i = i + 1;
    }
    out
}

fn parse_request(text: &str, from: usize, end: usize) -> (r: CallsignAndRequest)
    requires
        from <= end <= text@.len(),
    ensures
        r@ == request_at(text@, from as int, end as int),
{
    let a = trim_start(text, from, end);
    let b = trim_end(text, a, end);
    let blank = find_next(text, ' ', a, b);
    CallsignAndRequest {
        callsign: text.substring_char(a, blank).to_owned(),
        request: without_blanks(text, blank, b),
    }
}

impl Prompter {
    /// Takes the reply of the model to a transmission apart: one callsign
    /// and request for each piece between semicolons.
    pub fn split_reply(reply: &str) -> (r: Vec<CallsignAndRequest>)
        ensures
            requests_view(r@) == requests_from(reply@, 0),
    {
        let n = reply.unicode_len();
        let mut requests: Vec<CallsignAndRequest> = Vec::new();
        let mut from: usize = 0;
        assert(requests_view(requests@) =~= Seq::empty());
        loop
            invariant
                n == reply@.len(),
                from <= n,
                requests_view(requests@) + requests_from(reply@, from as int) == requests_from(
                    reply@,
                    0,
                ),
            decreases n - from,
        {
            let end = find_next(reply, ';', from, n);
            let ghost before = requests_view(requests@);
            let parsed = parse_request(reply, from, end);
            requests.push(parsed);
            assert(requests_view(requests@) =~= before.push(parsed@));
            if end >= n {
                assert(requests_view(requests@) =~= before + seq![
                    request_at(reply@, from as int, n as int),
                ]);
                return requests;
            }
            assert(requests_view(requests@) + requests_from(reply@, end + 1) =~= before + (seq![
                request_at(reply@, from as int, end as int),
            ] + requests_from(reply@, end + 1)));
            from = end + 1;
        }
    }

    /// The transmissions that the model made out, or the prompt as an error
    /// where it gave no reply.
    pub fn split_request(prompt: String, reply: Option<String>) -> (r: Result<
        Vec<CallsignAndRequest>,
        Error,
    >)
        ensures
            match reply {
                Some(text) => r matches Ok(requests) && requests_view(requests@) == requests_from(
                    text@,
                    0,
                ),
                None => r == Err::<Vec<CallsignAndRequest>, Error>(Error::NoResult(prompt)),
            },
    {
        match reply {
            Some(text) => Ok(Prompter::split_reply(text.as_str())),
            None => Err(Error::NoResult(prompt)),
        }
    }
}

} // verus!
