use vstd::prelude::*;

verus! {

/// Where the landing page sends a visitor who wants an account.
pub const REGISTER_URL: &'static str = "/register";

/// Where the landing page sends a visitor who has an account.
pub const LOGIN_URL: &'static str = "/login";

/// The values that the landing page's template is rendered with.
pub struct LandingContext {
    pub register_url: String,
    pub login_url: String,
}

/// The context of the landing page: its registration and login links.
pub fn landing() -> (r: LandingContext)
    ensures
        r.register_url@ == "/register"@,
        r.login_url@ == "/login"@,
{
    proof {
        reveal_strlit("/register");
        reveal_strlit("/login");
    }
    LandingContext { register_url: REGISTER_URL.to_owned(), login_url: LOGIN_URL.to_owned() }
}

} // verus!
