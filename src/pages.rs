use vstd::prelude::*;
use vstd::string::*;

verus! {

/// Whether two texts are equal, character by character.
pub fn same_text(a: &str, b: &str) -> (r: bool)
    ensures
        r == (a@ == b@),
{
    let n = a.unicode_len();
    if n != b.unicode_len() {
        return false;
    }
    let mut i: usize = 0;
    while i < n
        invariant
            n == a@.len(),
            n == b@.len(),
            i <= n,
            forall|t: int| 0 <= t < i ==> a@[t] == b@[t],
        decreases n - i,
    {
        if a.get_char(i) != b.get_char(i) {
            return false;
        }
        i = i + 1;
    }
    assert(a@ =~= b@);
    true
}

/// The pages of the demo site.
#[derive(Clone, Copy, Debug, PartialEq, Eq, Structural)]
pub enum Page {
    Home,
    Conditionals,
    Lists,
    Inputs,
    Hierarchy,
    ToDo,
    LoadData,
    /// The contact list with no contact chosen.
    Contacts,
    /// The contact list with the contact named by the id chosen.
    Contact,
    Search,
    NotFound,
}

/// The page a path shows, and the contact id it names (empty but for
/// `Page::Contact`).
pub struct RouteMatch {
    pub page: Page,
    pub id: String,
}

/// The id in a path of the form `/contacts/<id>`, where the id is not empty
/// and holds no `/`.
pub open spec fn contact_id(p: Seq<char>) -> Option<Seq<char>> {
    let pre = "/contacts/"@;
    if p.len() > pre.len() && p.subrange(0, pre.len() as int) == pre && forall|i: int|
        pre.len() <= i < p.len() ==> p[i] != '/' {
        Some(p.subrange(pre.len() as int, p.len() as int))
    } else {
        None
    }
}

/// The page that the path `p` shows.
pub open spec fn page_of(p: Seq<char>) -> Page {
    if p == "/"@ {
        Page::Home
    } else if p == "/conditionals"@ {
        Page::Conditionals
    } else if p == "/lists"@ {
        Page::Lists
    } else if p == "/inputs"@ {
        Page::Inputs
    } else if p == "/hierarchy"@ {
        Page::Hierarchy
    } else if p == "/todo"@ {
        Page::ToDo
    } else if p == "/load_data"@ {
        Page::LoadData
    } else if p == "/contacts"@ {
        Page::Contacts
    } else if p == "/search"@ {
        Page::Search
    } else if contact_id(p) is Some {
        Page::Contact
    } else {
        Page::NotFound
    }
}

/// Reads the contact id out of a path, if the path names one.
fn match_contact(path: &str) -> (r: Option<String>)
    ensures
        r is Some <==> contact_id(path@) is Some,
        r is Some ==> r.unwrap()@ == contact_id(path@).unwrap(),
{
    let pre = "/contacts/";
    let n = pre.unicode_len();
    let len = path.unicode_len();
    if len <= n || !same_text(path.substring_char(0, n), pre) {
        return None;
    }
    let mut i: usize = n;
    while i < len
        invariant
            pre@ == "/contacts/"@,
            n == pre@.len(),
            len == path@.len(),
            n < len,
            path@.subrange(0, n as int) == pre@,
            n <= i <= len,
            forall|t: int| n <= t < i ==> path@[t] != '/',
        decreases len - i,
    {
        if path.get_char(i) == '/' {
            assert(path@[i as int] == '/');
            return None;
        }
        i = i + 1;
    }
    Some(String::from_str(path.substring_char(n, len)))
}

/// Decides which page a path shows.
pub fn route(path: &str) -> (r: RouteMatch)
    ensures
        r.page == page_of(path@),
        r.page == Page::Contact ==> r.id@ == contact_id(path@).unwrap(),
        r.page != Page::Contact ==> r.id@.len() == 0,
{
    let page = if same_text(path, "/") {
        Page::Home
    } else if same_text(path, "/conditionals") {
        Page::Conditionals
    } else if same_text(path, "/lists") {
        Page::Lists
    } else if same_text(path, "/inputs") {
        Page::Inputs
    } else if same_text(path, "/hierarchy") {
        Page::Hierarchy
    } else if same_text(path, "/todo") {
        Page::ToDo
    } else if same_text(path, "/load_data") {
        Page::LoadData
    } else if same_text(path, "/contacts") {
        Page::Contacts
    } else if same_text(path, "/search") {
        Page::Search
    } else {
        match match_contact(path) {
            Some(id) => {
                return RouteMatch { page: Page::Contact, id };
            },
            None => Page::NotFound,
        }
    };
    RouteMatch { page, id: String::new() }
}

/// What the mock search service answers: nothing for an empty query, else
/// the query appended to the site's address.
pub fn fetch_results(search_query: &str) -> (r: String)
    ensures
        search_query@.len() == 0 ==> r@.len() == 0,
        search_query@.len() > 0 ==> r@ == "https:/website.com/"@ + search_query@,
{
    if search_query.unicode_len() == 0 {
        String::new()
    } else {
        String::from_str("https:/website.com/").concat(search_query)
    }
}

/// The value of the first pair named `name`, or the empty text when none is.
pub fn param_or_default(pairs: &Vec<(String, String)>, name: &str) -> (r: String)
    ensures
        (exists|i: int| 0 <= i < pairs@.len() && pairs@[i].0@ == name@) ==> exists|i: int|
            0 <= i < pairs@.len() && pairs@[i].0@ == name@ && r@ == pairs@[i].1@ && forall|j: int|
                0 <= j < i ==> #[trigger] pairs@[j].0@ != name@,
        !(exists|i: int| 0 <= i < pairs@.len() && pairs@[i].0@ == name@) ==> r@.len() == 0,
{
    let mut i: usize = 0;
    while i < pairs.len()
        invariant
            i <= pairs@.len(),
            forall|j: int| 0 <= j < i ==> #[trigger] pairs@[j].0@ != name@,
        decreases pairs@.len() - i,
    {
        if same_text(pairs[i].0.as_str(), name) {
            return pairs[i].1.clone();
        }
        i = i + 1;
    }
    String::new()
}

/// Whether an option of a drop-down is the selected one.
pub fn is_selected(value: &String, is: &str) -> (r: bool)
    ensures
        r == (value@ == is@),
{
    same_text(value.as_str(), is)
}

/// The count after a click on the increment button.
pub fn increment(count: i32) -> (r: i32)
    requires
        count < i32::MAX,
    ensures
        r == count + 1,
{
    count + 1
}

/// Whether the counter button is marked: the count is positive and odd.
pub fn is_odd(count: i32) -> (r: bool)
    ensures
        r == (count > 0 && count % 2 == 1),
{
    count > 0 && (count as u32) % 2 == 1
}

/// The message for a count: large above five, small otherwise.
pub fn size_message(count: i32) -> (r: &'static str)
    ensures
        count > 5 ==> r@ == "Large"@,
        count <= 5 ==> r@ == "Small"@,
{
    if count > 5 {
        "Large"
    } else {
        "Small"
    }
}

/// What a loading indicator says.
pub fn loading_label(loading: bool) -> (r: &'static str)
    ensures
        loading ==> r@ == "Loading..."@,
        !loading ==> r@ == "Idle."@,
{
    if loading {
        "Loading..."
    } else {
        "Idle."
    }
}

/// The buttons of the counter built without the view macro.
#[derive(Clone, Copy, Debug, PartialEq, Eq, Structural)]
pub enum CounterAction {
    Clear,
    Decrement,
    Increment,
}

/// The count after a button of the counter is pressed.
pub fn apply_action(action: CounterAction, count: i32) -> (r: i32)
    requires
        action == CounterAction::Decrement ==> count > i32::MIN,
        action == CounterAction::Increment ==> count < i32::MAX,
    ensures
        r == match action {
            CounterAction::Clear => 0,
            CounterAction::Decrement => count - 1,
            CounterAction::Increment => count + 1,
        },
{
    match action {
        CounterAction::Clear => 0,
        CounterAction::Decrement => count - 1,
        CounterAction::Increment => count + 1,
    }
}

} // verus!
