use vstd::prelude::*;
use vstd::string::StrSliceExecFns;

verus! {

/// What a render request asks for: a model, texture overrides, and the size
/// of the image in pixels.
#[derive(Debug, Clone, PartialEq, Eq)]
pub struct RenderJob {
    pub model: String,
    pub textures: Vec<String>,
    pub width: u32,
    pub height: u32,
}

/// Why a request was turned away before it reached admission.
#[derive(Debug, Clone, PartialEq, Eq)]
pub enum RequestError {
    /// The named field is absent.
    MissingField(String),
    /// The named field does not hold a number of the expected kind.
    ParseError(String),
}

pub enum RequestErrorView {
    MissingField(Seq<char>),
    ParseError(Seq<char>),
}

impl View for RequestError {
    type V = RequestErrorView;

    open spec fn view(&self) -> RequestErrorView {
        match self {
            RequestError::MissingField(n) => RequestErrorView::MissingField(n@),
            RequestError::ParseError(n) => RequestErrorView::ParseError(n@),
        }
    }
}

pub open spec fn is_digit(c: char) -> bool {
    '0' <= c && c <= '9'
}

/// The number that a nonempty run of decimal digits denotes.
pub open spec fn digits_value(s: Seq<char>) -> nat
    decreases s.len(),
{
    if s.len() == 0 {
        0
    } else {
        digits_value(s.drop_last()) * 10 + (s.last() as nat - '0' as nat) as nat
    }
}

/// The digits of an unsigned decimal numeral: all of `s`, or all but a
/// leading `+`.
pub open spec fn unsigned_digits(s: Seq<char>) -> Seq<char> {
    if s.len() > 0 && s[0] == '+' {
        s.drop_first()
    } else {
        s
    }
}

/// The `u32` that `s` writes in decimal, with an optional leading `+`; none
/// where `s` is not such a numeral or the number exceeds `u32::MAX`.
pub open spec fn u32_of(s: Seq<char>) -> Option<u32> {
    let d = unsigned_digits(s);
    if d.len() > 0 && (forall|i: int| 0 <= i < d.len() ==> is_digit(#[trigger] d[i])) && digits_value(d)
        <= u32::MAX as nat {
        Some(digits_value(d) as u32)
    } else {
        None
    }
}

/// The value of the last field named `name`, as a later field of the same
/// name replaces an earlier one.
pub open spec fn field_value(fields: Seq<(String, String)>, name: Seq<char>) -> Option<Seq<char>>
    decreases fields.len(),
{
    if fields.len() == 0 {
        None
    } else if fields.last().0@ == name {
        Some(fields.last().1@)
    } else {
        field_value(fields.drop_last(), name)
    }
}

pub open spec fn is_texture_name(name: Seq<char>) -> bool {
    "texture"@.len() <= name.len() && name.subrange(0, "texture"@.len() as int) == "texture"@
}

/// The values of the fields whose name begins with `texture`, in field order.
pub open spec fn texture_values(fields: Seq<(String, String)>) -> Seq<Seq<char>>
    decreases fields.len(),
{
    if fields.len() == 0 {
        Seq::empty()
    } else if is_texture_name(fields.last().0@) {
        texture_values(fields.drop_last()).push(fields.last().1@)
    } else {
        texture_values(fields.drop_last())
    }
}

/// The error of a numeric field, if it has one.
pub open spec fn number_error(fields: Seq<(String, String)>, name: Seq<char>) -> Option<RequestErrorView> {
    match field_value(fields, name) {
        None => Some(RequestErrorView::MissingField(name)),
        Some(v) => if u32_of(v) is None {
            Some(RequestErrorView::ParseError(name))
        } else {
            None
        },
    }
}

/// The first problem of a request, checking `model`, then `width`, then
/// `height`; none when the request is well formed.
pub open spec fn request_error(fields: Seq<(String, String)>) -> Option<RequestErrorView> {
    if field_value(fields, "model"@) is None {
        Some(RequestErrorView::MissingField("model"@))
    } else if number_error(fields, "width"@) is Some {
        number_error(fields, "width"@)
    } else {
        number_error(fields, "height"@)
    }
}

/// Whether `s` is exactly `lit`.
fn text_is(s: &String, lit: &str) -> (r: bool)
    ensures
        r == (s@ == lit@),
{
    let t = s.as_str();
    let n = t.unicode_len();
    if n != lit.unicode_len() {
        return false;
    }
    let mut i: usize = 0;
    while i < n
        invariant
            n == t@.len(),
            n == lit@.len(),
            t@ == s@,
            i <= n,
            forall|j: int| 0 <= j < i ==> t@[j] == lit@[j],
        decreases n - i,
    {
        if t.get_char(i) != lit.get_char(i) {
            return false;
        }
        i += 1;
    }
    assert(t@ =~= lit@);
    true
}

/// Whether `s` begins with `texture`.
fn names_texture(s: &String) -> (r: bool)
    ensures
        r == is_texture_name(s@),
{
    let lit = "texture";
    let t = s.as_str();
    let n = lit.unicode_len();
    if t.unicode_len() < n {
        return false;
    }
    let mut i: usize = 0;
    while i < n
        invariant
            n == lit@.len(),
            n <= t@.len(),
            t@ == s@,
            lit@ == "texture"@,
            i <= n,
            forall|j: int| 0 <= j < i ==> t@[j] == lit@[j],
        decreases n - i,
    {
        if t.get_char(i) != lit.get_char(i) {
            return false;
        }
        i += 1;
    }
    assert(s@.subrange(0, n as int) =~= lit@);
    true
}

/// Reads a `u32` written in decimal, with an optional leading `+`.
pub fn parse_u32(s: &String) -> (r: Option<u32>)
    ensures
        r == u32_of(s@),
{
    let t = s.as_str();
    let n = t.unicode_len();
    let mut i: usize = 0;
    if n > 0 && t.get_char(0) == '+' {
        i = 1;
    }
    let ghost d = unsigned_digits(s@);
    proof {
        assert(d =~= s@.subrange(i as int, n as int));
    }
    if i == n {
        return None;
    }
    let start = i;
    let mut value: u64 = 0;
    while i < n
        invariant
            n == t@.len(),
            t@ == s@,
            start <= i <= n,
            d =~= s@.subrange(start as int, n as int),
            d == unsigned_digits(s@),
            forall|j: int| 0 <= j < i - start ==> is_digit(#[trigger] d[j]),
            value as nat == digits_value(d.subrange(0, i - start)),
            value <= u32::MAX,
        decreases n - i,
    {
        let c = t.get_char(i);
        if !('0' <= c && c <= '9') {
            assert(!is_digit(d[i - start]));
            assert(!(forall|j: int| 0 <= j < d.len() ==> is_digit(#[trigger] d[j])));
            return None;
        }
        let ghost pre = d.subrange(0, i - start + 1);
        assert(pre.drop_last() =~= d.subrange(0, i - start));
        assert(pre.last() == c);
        let next = value * 10 + (c as u64 - '0' as u64);
        if next > u32::MAX as u64 {
            proof {
                assert(digits_value(pre) == digits_value(pre.drop_last()) * 10 + (c as nat - '0' as nat) as nat);
                assert(digits_value(pre) == next as nat);
                lemma_digits_grow(d, (i - start + 1) as int);
            }
            return None;
        }
        value = next;
        i += 1;
    }
    assert(d.subrange(0, d.len() as int) =~= d);
    Some(value as u32)
}

/// A longer prefix of digits never denotes a smaller number.
proof fn lemma_digits_grow(d: Seq<char>, k: int)
    requires
        0 <= k <= d.len(),
    ensures
        digits_value(d.subrange(0, k)) <= digits_value(d),
    decreases d.len() - k,
{
    if k < d.len() {
        lemma_digits_grow(d, k + 1);
        let pre = d.subrange(0, k + 1);
        assert(pre.drop_last() =~= d.subrange(0, k));
    } else {
        assert(d.subrange(0, k) =~= d);
    }
}

/// Reads a request from its fields (name and value, in the order received):
/// the model from `model`, the size from `width` and `height`, and the
/// textures from every field whose name begins with `texture`.
pub fn parse_request(fields: &Vec<(String, String)>) -> (r: Result<RenderJob, RequestError>)
    ensures
        r is Err <==> request_error(fields@) is Some,
        r matches Err(e) ==> Some(e@) == request_error(fields@),
        r matches Ok(job) ==> {
            &&& field_value(fields@, "model"@) == Some(job.model@)
            &&& field_value(fields@, "width"@) matches Some(w) && u32_of(w) == Some(job.width)
            &&& field_value(fields@, "height"@) matches Some(h) && u32_of(h) == Some(job.height)
            &&& job.textures@.map_values(|t: String| t@) == texture_values(fields@)
        },
{
    let model = match find_field(fields, "model") {
        Some(v) => v,
        None => {
            return Err(RequestError::MissingField("model".to_owned()));
        },
    };
    let width = match read_number(fields, "width") {
        Ok(v) => v,
        Err(e) => {
            return Err(e);
        },
    };
    let height = match read_number(fields, "height") {
        Ok(v) => v,
        Err(e) => {
            return Err(e);
        },
    };
    let textures = texture_fields(fields);
    Ok(RenderJob { model, textures, width, height })
}

/// The numeric field `name`, or its error.
fn read_number(fields: &Vec<(String, String)>, name: &str) -> (r: Result<u32, RequestError>)
    ensures
        r is Err <==> number_error(fields@, name@) is Some,
        r matches Err(e) ==> Some(e@) == number_error(fields@, name@),
        r matches Ok(v) ==> field_value(fields@, name@) matches Some(w) && u32_of(w) == Some(v),
{
    match find_field(fields, name) {
        None => Err(RequestError::MissingField(name.to_owned())),
        Some(v) => match parse_u32(&v) {
            Some(n) => Ok(n),
            None => Err(RequestError::ParseError(name.to_owned())),
        },
    }
}

/// The value of the last field named `name`.
fn find_field(fields: &Vec<(String, String)>, name: &str) -> (r: Option<String>)
    ensures
        match r {
            Some(v) => field_value(fields@, name@) == Some(v@),
            None => field_value(fields@, name@) is None,
        },
{
    let mut i: usize = fields.len();
    assert(fields@.subrange(0, i as int) =~= fields@);
    while i > 0
        invariant
            i <= fields@.len(),
            field_value(fields@, name@) == field_value(fields@.subrange(0, i as int), name@),
        decreases i,
    {
        let ghost pre = fields@.subrange(0, i as int);
        assert(pre.drop_last() =~= fields@.subrange(0, i - 1));
        if text_is(&fields[i - 1].0, name) {
            return Some(fields[i - 1].1.clone());
        }
        i -= 1;
    }
    None
}

/// The values of the texture fields, in field order.
fn texture_fields(fields: &Vec<(String, String)>) -> (r: Vec<String>)
    ensures
        r@.map_values(|t: String| t@) == texture_values(fields@),
{
    let mut r: Vec<String> = Vec::new();
    let mut i: usize = 0;
    while i < fields.len()
        invariant
            i <= fields@.len(),
            r@.map_values(|t: String| t@) == texture_values(fields@.subrange(0, i as int)),
        decreases fields@.len() - i,
    {
        let ghost pre = fields@.subrange(0, i as int + 1);
        assert(pre.drop_last() =~= fields@.subrange(0, i as int));
        if names_texture(&fields[i].0) {
            let v = fields[i].1.clone();
            r.push(v);
            assert(r@.map_values(|t: String| t@) =~= texture_values(pre));
        }
        i += 1;
    }
    assert(fields@.subrange(0, fields@.len() as int) =~= fields@);
    r
}

} // verus!
