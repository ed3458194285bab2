use vstd::prelude::*;
use vstd::string::*;

verus! {

/// A CSV document that is sent to the client as a file download.
pub struct CsvResponse<'a> {
    pub data: Vec<u8>,
    pub filename: &'a str,
}

/// The `Content-Disposition` header value that asks the client to save the
/// body under `filename`.
pub open spec fn spec_content_disposition(filename: Seq<char>) -> Seq<char> {
    "attachment; filename=\""@ + filename + "\""@
}

impl<'a> CsvResponse<'a> {
    pub fn new(data: Vec<u8>, filename: &'a str) -> (res: Self)
        ensures
            res.data@ == data@,
            res.filename@ == filename@,
    {
        CsvResponse { data, filename }
    }

    /// The header value under which the response is offered as an attachment.
    pub fn content_disposition(&self) -> (res: String)
        ensures
            res@ == spec_content_disposition(self.filename@),
    {
        let mut res = String::from_str("attachment; filename=\"");
        res.append(self.filename);
        res.append("\"");
        res
    }
}

/// The header offers the body as an attachment and quotes the whole file
/// name, unchanged, at its end.
pub proof fn lemma_content_disposition_quotes_filename(filename: Seq<char>)
    ensures
        ({
            let h = spec_content_disposition(filename);
            let n = h.len() as int;
            &&& h.take(11) == "attachment;"@
            &&& n >= filename.len() + 2
            &&& h[n - 1] == '"'
            &&& h[n - filename.len() - 2] == '"'
            &&& h.subrange(n - filename.len() - 1, n - 1) == filename
        }),
{
    reveal_strlit("attachment; filename=\"");
    reveal_strlit("\"");
    reveal_strlit("attachment;");
    let h = spec_content_disposition(filename);
    let n = h.len() as int;
    assert(h.take(11) =~= "attachment;"@);
    assert(h.subrange(n - filename.len() - 1, n - 1) =~= filename);
}

} // verus!
