//! What the catalogue tells about a series as a whole: its main
//! information, its genres and its status.

use crate::key::{decimal, push_decimal};
use vstd::prelude::*;
use vstd::string::StringExecFns;

verus! {

/// The genres that the catalogue knows by name.
#[derive(Debug, Clone, Copy, PartialEq, Eq, Structural)]
pub enum Genre {
    Romance,
    Drama,
    Music,
    Action,
    Fantasy,
    ScienceFiction,
    Horror,
    Thriller,
    Crime,
    Adventure,
    Comedy,
    Adult,
    Anime,
    Children,
    Family,
    Food,
    Nature,
    Supernatural,
    Western,
    Espionage,
    Mystery,
    Other,
}

/// The name under which the catalogue lists a genre.
pub open spec fn genre_name(genre: Genre) -> Seq<char> {
    match genre {
        Genre::Romance => "Romance"@,
        Genre::Drama => "Drama"@,
        Genre::Music => "Music"@,
        Genre::Action => "Action"@,
        Genre::Fantasy => "Fantasy"@,
        Genre::ScienceFiction => "Science-Fiction"@,
        Genre::Horror => "Horror"@,
        Genre::Thriller => "Thriller"@,
        Genre::Crime => "Crime"@,
        Genre::Adventure => "Adventure"@,
        Genre::Comedy => "Comedy"@,
        Genre::Adult => "Adult"@,
        Genre::Anime => "Anime"@,
        Genre::Children => "Children"@,
        Genre::Family => "Family"@,
        Genre::Food => "Food"@,
        Genre::Nature => "Nature"@,
        Genre::Supernatural => "Supernatural"@,
        Genre::Western => "Western"@,
        Genre::Espionage => "Espionage"@,
        Genre::Mystery => "Mystery"@,
        Genre::Other => "Other"@,
    }
}

/// The genre that a name stands for; a name that the catalogue does not
/// know stands for `Other`.
pub open spec fn genre_of(name: Seq<char>) -> Genre {
    if name == "Romance"@ {
        Genre::Romance
    } else if name == "Drama"@ {
        Genre::Drama
    } else if name == "Music"@ {
        Genre::Music
    } else if name == "Action"@ {
        Genre::Action
    } else if name == "Fantasy"@ {
        Genre::Fantasy
    } else if name == "Science-Fiction"@ {
        Genre::ScienceFiction
    } else if name == "Horror"@ {
        Genre::Horror
    } else if name == "Thriller"@ {
        Genre::Thriller
    } else if name == "Crime"@ {
        Genre::Crime
    } else if name == "Adventure"@ {
        Genre::Adventure
    } else if name == "Comedy"@ {
        Genre::Comedy
    } else if name == "Adult"@ {
        Genre::Adult
    } else if name == "Anime"@ {
        Genre::Anime
    } else if name == "Children"@ {
        Genre::Children
    } else if name == "Family"@ {
        Genre::Family
    } else if name == "Food"@ {
        Genre::Food
    } else if name == "Nature"@ {
        Genre::Nature
    } else if name == "Supernatural"@ {
        Genre::Supernatural
    } else if name == "Western"@ {
        Genre::Western
    } else if name == "Espionage"@ {
        Genre::Espionage
    } else if name == "Mystery"@ {
        Genre::Mystery
    } else {
        Genre::Other
    }
}

/// Every genre is the one that its own name stands for.
pub proof fn lemma_genre_of_its_name(genre: Genre)
    ensures
        genre_of(genre_name(genre)) == genre,
{
    reveal_strlit("Romance");
    reveal_strlit("Drama");
    reveal_strlit("Music");
    reveal_strlit("Action");
    reveal_strlit("Fantasy");
    reveal_strlit("Science-Fiction");
    reveal_strlit("Horror");
    reveal_strlit("Thriller");
    reveal_strlit("Crime");
    reveal_strlit("Adventure");
    reveal_strlit("Comedy");
    reveal_strlit("Adult");
    reveal_strlit("Anime");
    reveal_strlit("Children");
    reveal_strlit("Family");
    reveal_strlit("Food");
    reveal_strlit("Nature");
    reveal_strlit("Supernatural");
    reveal_strlit("Western");
    reveal_strlit("Espionage");
    reveal_strlit("Mystery");
    reveal_strlit("Other");
    assert("Romance"@.len() == 7 && "Romance"@[0] == 'R' && "Romance"@[1] == 'o');
    assert("Drama"@.len() == 5 && "Drama"@[0] == 'D' && "Drama"@[1] == 'r');
    assert("Music"@.len() == 5 && "Music"@[0] == 'M' && "Music"@[1] == 'u');
    assert("Action"@.len() == 6 && "Action"@[0] == 'A' && "Action"@[1] == 'c');
    assert("Fantasy"@.len() == 7 && "Fantasy"@[0] == 'F' && "Fantasy"@[1] == 'a');
    assert("Science-Fiction"@.len() == 15 && "Science-Fiction"@[0] == 'S' && "Science-Fiction"@[1] == 'c');
    assert("Horror"@.len() == 6 && "Horror"@[0] == 'H' && "Horror"@[1] == 'o');
    assert("Thriller"@.len() == 8 && "Thriller"@[0] == 'T' && "Thriller"@[1] == 'h');
    assert("Crime"@.len() == 5 && "Crime"@[0] == 'C' && "Crime"@[1] == 'r');
    assert("Adventure"@.len() == 9 && "Adventure"@[0] == 'A' && "Adventure"@[1] == 'd');
    assert("Comedy"@.len() == 6 && "Comedy"@[0] == 'C' && "Comedy"@[1] == 'o');
    assert("Adult"@.len() == 5 && "Adult"@[0] == 'A' && "Adult"@[1] == 'd');
    assert("Anime"@.len() == 5 && "Anime"@[0] == 'A' && "Anime"@[1] == 'n');
    assert("Children"@.len() == 8 && "Children"@[0] == 'C' && "Children"@[1] == 'h');
    assert("Family"@.len() == 6 && "Family"@[0] == 'F' && "Family"@[1] == 'a');
    assert("Food"@.len() == 4 && "Food"@[0] == 'F' && "Food"@[1] == 'o');
    assert("Nature"@.len() == 6 && "Nature"@[0] == 'N' && "Nature"@[1] == 'a');
    assert("Supernatural"@.len() == 12 && "Supernatural"@[0] == 'S' && "Supernatural"@[1] == 'u');
    assert("Western"@.len() == 7 && "Western"@[0] == 'W' && "Western"@[1] == 'e');
    assert("Espionage"@.len() == 9 && "Espionage"@[0] == 'E' && "Espionage"@[1] == 's');
    assert("Mystery"@.len() == 7 && "Mystery"@[0] == 'M' && "Mystery"@[1] == 'y');
    assert("Other"@.len() == 5 && "Other"@[0] == 'O' && "Other"@[1] == 't');
}

impl From<&str> for Genre {
    fn from(value: &str) -> (genre: Self) {
        if value.eq("Romance") {
            Self::Romance
        } else if value.eq("Drama") {
            Self::Drama
        } else if value.eq("Music") {
            Self::Music
        } else if value.eq("Action") {
            Self::Action
        } else if value.eq("Fantasy") {
            Self::Fantasy
        } else if value.eq("Science-Fiction") {
            Self::ScienceFiction
        } else if value.eq("Horror") {
            Self::Horror
        } else if value.eq("Thriller") {
            Self::Thriller
        } else if value.eq("Crime") {
            Self::Crime
        } else if value.eq("Adventure") {
            Self::Adventure
        } else if value.eq("Comedy") {
            Self::Comedy
        } else if value.eq("Adult") {
            Self::Adult
        } else if value.eq("Anime") {
            Self::Anime
        } else if value.eq("Children") {
            Self::Children
        } else if value.eq("Family") {
            Self::Family
        } else if value.eq("Food") {
            Self::Food
        } else if value.eq("Nature") {
            Self::Nature
        } else if value.eq("Supernatural") {
            Self::Supernatural
        } else if value.eq("Western") {
            Self::Western
        } else if value.eq("Espionage") {
            Self::Espionage
        } else if value.eq("Mystery") {
            Self::Mystery
        } else {
            Self::Other
        }
    }
}

impl vstd::std_specs::convert::FromSpecImpl<&str> for Genre {
    open spec fn obeys_from_spec() -> bool {
        true
    }

    open spec fn from_spec(value: &str) -> Self {
        genre_of(value@)
    }
}

impl Genre {
    /// The name under which the catalogue lists the genre.
    pub fn as_str(&self) -> (name: &'static str)
        ensures
            name@ == genre_name(*self),
    {
        match self {
            Self::Romance => "Romance",
            Self::Drama => "Drama",
            Self::Music => "Music",
            Self::Action => "Action",
            Self::Fantasy => "Fantasy",
            Self::ScienceFiction => "Science-Fiction",
            Self::Horror => "Horror",
            Self::Thriller => "Thriller",
            Self::Crime => "Crime",
            Self::Adventure => "Adventure",
            Self::Comedy => "Comedy",
            Self::Adult => "Adult",
            Self::Anime => "Anime",
            Self::Children => "Children",
            Self::Family => "Family",
            Self::Food => "Food",
            Self::Nature => "Nature",
            Self::Supernatural => "Supernatural",
            Self::Western => "Western",
            Self::Espionage => "Espionage",
            Self::Mystery => "Mystery",
            Self::Other => "Other",
        }
    }

    /// The genre's name as an owned text.
    pub fn to_string(&self) -> (name: String)
        ensures
            name@ == genre_name(*self),
    {
        self.as_str().to_owned()
    }
}

/// The channel on which a series is streamed.
#[derive(Debug, Clone)]
pub struct WebChannel {
    pub name: String,
    pub official_site: Option<String>,
}

/// The country of a network.
#[derive(Debug, Clone)]
pub struct Country {
    pub name: String,
}

/// The network on which a series is broadcast.
#[derive(Debug, Clone)]
pub struct Network {
    pub name: String,
    pub country: Country,
    pub official_site_url: Option<String>,
}

/// Where the pictures of a series are found.
#[derive(Debug, Clone)]
pub struct Image {
    pub original_image_url: String,
    pub medium_image_url: String,
}

/// The main information that the catalogue holds on a series.
#[derive(Debug, Clone)]
pub struct SeriesMainInformation {
    pub id: u32,
    pub name: String,
    pub language: Option<String>,
    pub genres: Vec<String>,
    pub status: String,
    pub average_runtime: Option<u32>,
    pub premiered: Option<String>,
    pub ended: Option<String>,
    pub network: Option<Network>,
    pub web_channel: Option<WebChannel>,
    pub summary: Option<String>,
    pub image: Option<Image>,
}

impl PartialEq for SeriesMainInformation {
    /// Two pieces of information are on the same series when their
    /// identifiers agree.
    fn eq(&self, other: &Self) -> (equal: bool) {
        self.id == other.id
    }
}

impl vstd::std_specs::cmp::PartialEqSpecImpl for SeriesMainInformation {
    open spec fn obeys_eq_spec() -> bool {
        true
    }

    open spec fn eq_spec(&self, other: &Self) -> bool {
        self.id == other.id
    }
}

impl Eq for SeriesMainInformation {

}

/// Where a series stands in its run.
#[derive(Debug, Clone, Copy, PartialEq, Eq, Structural)]
pub enum SeriesStatus {
    Running,
    Ended,
    ToBeDetermined,
    InDevelopment,
    Other,
}

/// The status that the catalogue's wording stands for; any other wording
/// stands for `Other`.
pub open spec fn status_of(wording: Seq<char>) -> SeriesStatus {
    if wording == "Running"@ {
        SeriesStatus::Running
    } else if wording == "Ended"@ {
        SeriesStatus::Ended
    } else if wording == "To Be Determined"@ {
        SeriesStatus::ToBeDetermined
    } else if wording == "In Development"@ {
        SeriesStatus::InDevelopment
    } else {
        SeriesStatus::Other
    }
}

impl SeriesStatus {
    /// The status of a series, read from the wording in its information.
    pub fn new(series_info: &SeriesMainInformation) -> (status: Self)
        ensures
            status == status_of(series_info.status@),
    {
        let wording = series_info.status.as_str();
        if wording.eq("Running") {
            Self::Running
        } else if wording.eq("Ended") {
            Self::Ended
        } else if wording.eq("To Be Determined") {
            Self::ToBeDetermined
        } else if wording.eq("In Development") {
            Self::InDevelopment
        } else {
            Self::Other
        }
    }
}

/// The address under which the catalogue serves the information on a
/// series: the identifier follows the last slash.
pub open spec fn series_information_address(series_id: u32) -> Seq<char> {
    "https://api.tvmaze.com/shows/"@ + decimal(series_id as nat)
}

/// The address from which the main information on a series is fetched.
pub fn get_series_main_info_address(series_id: u32) -> (address: String)
    ensures
        address@ == series_information_address(series_id),
{
    let mut address = String::from_str("https://api.tvmaze.com/shows/");
    push_decimal(&mut address, series_id);
    address
}

} // verus!
