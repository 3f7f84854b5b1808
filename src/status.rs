use vstd::prelude::*;

verus! {

/// The status that ends a response: a numeric code, zero for success, and a
/// message.
#[derive(Clone, Debug)]
pub struct QueryStatus {
    id: i32,
    msg: String,
}

impl View for QueryStatus {
    type V = (i32, Seq<char>);

    closed spec fn view(&self) -> (i32, Seq<char>) {
        (self.id, self.msg@)
    }
}

impl QueryStatus {
    pub fn new(id: i32, msg: String) -> (r: Self)
        ensures
            r@ == (id, msg@),
    {
        Self { id, msg }
    }

    pub fn id(&self) -> (r: i32)
        ensures
            r == self@.0,
    {
        self.id
    }

    pub fn msg(&self) -> (r: &str)
        ensures
            r@ == self@.1,
    {
        self.msg.as_str()
    }

    pub fn is_ok(&self) -> (r: bool)
        ensures
            r == (self@.0 == 0),
    {
        self.id == 0
    }
}

/// Why a query run stopped.
#[derive(Clone, Debug)]
pub enum QueryError {
    /// The connection could not be opened.
    ConnectError,
    /// A response was not valid UTF-8.
    EncodingError,
    /// A status line was found but could not be read.
    MalformedStatus,
    /// A response held no status line.
    NoStatusLine,
    /// A command could not be written.
    WriteError,
    /// The transport reported a failure while reading.
    TransportError,
    /// No data arrived before the read timed out.
    NoResponse,
    /// The server answered the login with a failure status.
    LoginFailed(QueryStatus),
    /// The server answered the server selection with a failure status.
    SelectFailed(QueryStatus),
    /// The server id given to the run is not an integer.
    InvalidServerId,
}

} // verus!
