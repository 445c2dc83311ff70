//! Error values of the API and the CORS headers it adds to responses.

use vstd::prelude::*;


verus! {

/// An error answer: an HTTP status code and the message of its
/// `{"error": message}` body.
#[derive(Debug)]
pub struct ApiError {
    pub status: u16,
    pub message: String,
}

/// Builds an error answer.
pub fn json_error(status: u16, message: String) -> (e: ApiError)
    ensures
        e.status == status,
        e.message@ == message@,
{
    ApiError { status, message }
}

/// The response headers that let the configured frontend call the API.
pub struct Cors {
    pub frontend_url: String,
}

/// The CORS headers for a frontend origin, in the order they are set.
pub open spec fn cors_header_list(frontend_url: Seq<char>) -> Seq<(Seq<char>, Seq<char>)> {
    seq![
        ("Access-Control-Allow-Origin"@, frontend_url),
        ("Vary"@, "Origin"@),
        ("Access-Control-Allow-Credentials"@, "true"@),
        ("Access-Control-Allow-Methods"@, "GET, POST, PUT, PATCH, DELETE, OPTIONS"@),
        ("Access-Control-Allow-Headers"@, "Authorization, Content-Type"@),
    ]
}

impl Cors {
    /// The headers added to every response.
    pub fn headers(&self) -> (h: Vec<(String, String)>)
        ensures
            h@.map_values(|p: (String, String)| (p.0@, p.1@)) == cors_header_list(self.frontend_url@),
    {
        let mut h: Vec<(String, String)> = Vec::new();
        h.push((String::from_str("Access-Control-Allow-Origin"), self.frontend_url.clone()));
        h.push((String::from_str("Vary"), String::from_str("Origin")));
        h.push((String::from_str("Access-Control-Allow-Credentials"), String::from_str("true")));
        h.push((
            String::from_str("Access-Control-Allow-Methods"),
            String::from_str("GET, POST, PUT, PATCH, DELETE, OPTIONS"),
        ));
        h.push((
            String::from_str("Access-Control-Allow-Headers"),
            String::from_str("Authorization, Content-Type"),
        ));
        proof {
            assert(h@.map_values(|p: (String, String)| (p.0@, p.1@)) =~= cors_header_list(self.frontend_url@));
        }
        h
    }
}

} // verus!
