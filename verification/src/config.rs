//! The settings of the renderer.

use crate::book::Chapter;
use vstd::prelude::*;
use vstd::string::StringExecFns;

verus! {

/// The setting of the renderer, as the book's configuration gives it.
#[derive(Debug, Clone)]
pub struct ConfluenceConfig {
    pub enabled: bool,
    pub url: String,
    pub username: String,
    pub password: String,
    /// What every page title starts with, before the chapter's name.
    pub title_prefix: Option<String>,
    /// The page under which the book's first level stands.
    pub root_page: i64,
}

impl Default for ConfluenceConfig {
    fn default() -> (config: ConfluenceConfig)
        ensures
            !config.enabled,
            config.url@.len() == 0,
            config.username@.len() == 0,
            config.password@.len() == 0,
            config.title_prefix is None,
            config.root_page == 0,
    {
        ConfluenceConfig {
            enabled: false,
            url: String::new(),
            username: String::new(),
            password: String::new(),
            title_prefix: None,
            root_page: 0,
        }
    }
}

impl ConfluenceConfig {
    /// The configured prefix, or nothing.
    pub open spec fn prefix(self) -> Seq<char> {
        match self.title_prefix {
            Some(prefix) => prefix@,
            None => Seq::empty(),
        }
    }

    /// The title of the page of a chapter called `name`: the one key by which
    /// a chapter and a page of the remote service are matched.
    pub open spec fn title_of(self, name: Seq<char>) -> Seq<char> {
        self.prefix() + name
    }

    /// The title of the chapter's page.
    pub fn chapter_title(&self, chapter: &Chapter) -> (title: String)
        ensures
            title@ == self.title_of(chapter.name@),
    {
        let mut title = match &self.title_prefix {
            Some(prefix) => prefix.clone(),
            None => String::new(),
        };
        title.append(chapter.name.as_str());
        title
    }
}

} // verus!
