//! The persisted data model: tab templates, dimensions, and the whole
//! configuration document, together with its well-formedness invariant
//! (dimension names are unique) and the operations over it.

use vstd::prelude::*;

verus! {

/// A stored tab template: what to (re)create inside a dimension's session.
pub struct Tab {
    pub name: String,
    pub command: Option<String>,
    pub working_dir: Option<String>,
}

/// Mathematical model of a tab template.
pub ghost struct TabModel {
    pub name: Seq<char>,
    pub command: Option<Seq<char>>,
    pub working_dir: Option<Seq<char>>,
}

impl View for Tab {
    type V = TabModel;

    open spec fn view(&self) -> TabModel {
        TabModel {
            name: self.name@,
            command: self.command.deep_view(),
            working_dir: self.working_dir.deep_view(),
        }
    }
}

impl DeepView for Tab {
    type V = TabModel;

    open spec fn deep_view(&self) -> TabModel {
        self.view()
    }
}

impl Tab {
    /// A fresh template with no working directory of its own.
    pub fn new(name: String, command: Option<String>) -> (t: Tab)
        ensures
            t@ == (TabModel { name: name@, command: command.deep_view(), working_dir: None }),
    {
        Tab { name, command, working_dir: None }
    }
}

/// A named workspace: an ordered list of tab templates and an optional
/// base directory used when its session is materialized.
pub struct Dimension {
    pub name: String,
    pub tabs: Vec<Tab>,
    pub base_dir: Option<String>,
    pub collapsed: bool,
}

/// Mathematical model of a dimension.
pub ghost struct DimensionModel {
    pub name: Seq<char>,
    pub tabs: Seq<TabModel>,
    pub base_dir: Option<Seq<char>>,
    pub collapsed: bool,
}

impl View for Dimension {
    type V = DimensionModel;

    open spec fn view(&self) -> DimensionModel {
        DimensionModel {
            name: self.name@,
            tabs: self.tabs.deep_view(),
            base_dir: self.base_dir.deep_view(),
            collapsed: self.collapsed,
        }
    }
}

impl DeepView for Dimension {
    type V = DimensionModel;

    open spec fn deep_view(&self) -> DimensionModel {
        self.view()
    }
}

impl Dimension {
    /// A fresh dimension with no tabs, no base directory, not collapsed.
    pub fn new(name: String) -> (d: Dimension)
        ensures
            d@ == (DimensionModel {
                name: name@,
                tabs: Seq::<TabModel>::empty(),
                base_dir: None,
                collapsed: false,
            }),
    {
        let d = Dimension { name, tabs: Vec::new(), base_dir: None, collapsed: false };
        proof {
            assert(d.tabs.deep_view() =~= Seq::<TabModel>::empty());
        }
        d
    }

    /// Appends a template at the end of the ordered list.
    pub fn add_tab(&mut self, tab: Tab)
        ensures
            final(self)@ == (DimensionModel {
                tabs: old(self)@.tabs.push(tab@),
                ..old(self)@
            }),
    {
        self.tabs.push(tab);
        proof {
            assert(self.tabs.deep_view() =~= old(self)@.tabs.push(tab@));
        }
    }

    /// Removes the template at `index`, returning it; out-of-range indices
    /// leave the dimension unchanged and return nothing.
    pub fn remove_tab(&mut self, index: usize) -> (r: Option<Tab>)
        ensures
            index < old(self)@.tabs.len() ==> {
                &&& r matches Some(t) && t@ == old(self)@.tabs[index as int]
                &&& final(self)@ == (DimensionModel {
                    tabs: old(self)@.tabs.remove(index as int),
                    ..old(self)@
                })
            },
            index >= old(self)@.tabs.len() ==> r is None && final(self)@ == old(self)@,
    {
        if index < self.tabs.len() {
            let t = self.tabs.remove(index);
            proof {
                assert(self.tabs.deep_view() =~= old(self)@.tabs.remove(index as int));
            }
            Some(t)
        } else {
            None
        }
    }
}

/// The whole persisted document: an ordered list of dimensions.
pub struct DimensionConfig {
    pub dimensions: Vec<Dimension>,
    pub active_dimension: Option<String>,
}

/// Mathematical model of the document.
pub ghost struct ConfigModel {
    pub dimensions: Seq<DimensionModel>,
    pub active_dimension: Option<Seq<char>>,
}

impl View for DimensionConfig {
    type V = ConfigModel;

    open spec fn view(&self) -> ConfigModel {
        ConfigModel {
            dimensions: self.dimensions.deep_view(),
            active_dimension: self.active_dimension.deep_view(),
        }
    }
}

impl DeepView for DimensionConfig {
    type V = ConfigModel;

    open spec fn deep_view(&self) -> ConfigModel {
        self.view()
    }
}

/// Whether some dimension of the document carries this name.
pub open spec fn has_dim(c: ConfigModel, name: Seq<char>) -> bool {
    exists|i: int| 0 <= i < c.dimensions.len() && c.dimensions[i].name == name
}

/// `post` is `pre` with its first dimension named `name` taken out.
pub open spec fn removed_first(
    pre: Seq<DimensionModel>,
    post: Seq<DimensionModel>,
    name: Seq<char>,
) -> bool {
    exists|i: int|
        {
            &&& 0 <= i < pre.len()
            &&& #[trigger] pre[i].name == name
            &&& forall|j: int| 0 <= j < i ==> pre[j].name != name
            &&& post == pre.remove(i)
        }
}

/// Dimension names are unique across the document.
pub open spec fn config_wf(c: ConfigModel) -> bool {
    forall|i: int, j: int|
        0 <= i < j < c.dimensions.len() ==> c.dimensions[i].name != c.dimensions[j].name
}

impl Default for DimensionConfig {
    /// The empty document, used when nothing is persisted yet.
    fn default() -> (c: DimensionConfig)
        ensures
            c@ == (ConfigModel {
                dimensions: Seq::<DimensionModel>::empty(),
                active_dimension: None,
            }),
    {
        DimensionConfig::new()
    }
}

impl DimensionConfig {
    /// The empty document.
    pub fn new() -> (c: DimensionConfig)
        ensures
            c@ == (ConfigModel { dimensions: Seq::<DimensionModel>::empty(), active_dimension: None }),
            config_wf(c@),
    {
        let c = DimensionConfig { dimensions: Vec::new(), active_dimension: None };
        proof {
            assert(c.dimensions.deep_view() =~= Seq::<DimensionModel>::empty());
        }
        c
    }

    /// Appends a dimension at the end of the document.
    pub fn add_dimension(&mut self, dimension: Dimension)
        ensures
            final(self)@ == (ConfigModel {
                dimensions: old(self)@.dimensions.push(dimension@),
                ..old(self)@
            }),
    {
        self.dimensions.push(dimension);
        proof {
            assert(self.dimensions.deep_view() =~= old(self)@.dimensions.push(dimension@));
        }
    }

    /// Removes the first dimension with this name, returning it; a name
    /// not in the document leaves it unchanged.
    pub fn remove_dimension(&mut self, name: &str) -> (r: Option<Dimension>)
        ensures
            r is Some <==> has_dim(old(self)@, name@),
            r matches Some(d) ==> exists|i: int|
                {
                    &&& 0 <= i < old(self)@.dimensions.len()
                    &&& #[trigger] old(self)@.dimensions[i].name == name@
                    &&& forall|j: int| 0 <= j < i ==> old(self)@.dimensions[j].name != name@
                    &&& d@ == old(self)@.dimensions[i]
                    &&& final(self)@ == (ConfigModel {
                        dimensions: old(self)@.dimensions.remove(i),
                        ..old(self)@
                    })
                },
            r is None ==> final(self)@ == old(self)@,
            config_wf(old(self)@) ==> config_wf(final(self)@),
    {
        let needle: String = name.to_owned();
        let ghost pre = self@;
        let mut i: usize = 0;
        while i < self.dimensions.len()
            invariant
                self@ == pre,
                pre == old(self)@,
                needle@ == name@,
                i <= pre.dimensions.len(),
                forall|j: int| 0 <= j < i ==> pre.dimensions[j].name != name@,
            decreases pre.dimensions.len() - i,
        {
            if self.dimensions[i].name == needle {
                proof {
                    assert(pre.dimensions[i as int].name == name@);
                }
                let d = self.dimensions.remove(i);
                proof {
                    assert(self.dimensions.deep_view() =~= pre.dimensions.remove(i as int));
                    assert(d@ == pre.dimensions[i as int]);
                    assert(self@ == (ConfigModel {
                        dimensions: pre.dimensions.remove(i as int),
                        ..pre
                    }));
                    if config_wf(pre) {
                        lemma_remove_keeps_wf(pre, self@, i as int);
                    }
                }
                return Some(d);
            }
            i = i + 1;
        }
        None
    }

    /// A shared borrow of the first dimension with this name.
    pub fn get_dimension(&self, name: &str) -> (r: Option<&Dimension>)
        ensures
            r is Some <==> has_dim(self@, name@),
            r matches Some(d) ==> exists|i: int|
                {
                    &&& 0 <= i < self@.dimensions.len()
                    &&& #[trigger] self@.dimensions[i].name == name@
                    &&& forall|j: int| 0 <= j < i ==> self@.dimensions[j].name != name@
                    &&& d@ == self@.dimensions[i]
                },
    {
        let needle: String = name.to_owned();
        let mut i: usize = 0;
        while i < self.dimensions.len()
            invariant
                needle@ == name@,
                i <= self@.dimensions.len(),
                forall|j: int| 0 <= j < i ==> self@.dimensions[j].name != name@,
            decreases self@.dimensions.len() - i,
        {
            if self.dimensions[i].name == needle {
                proof {
                    assert(self@.dimensions[i as int].name == name@);
                }
                return Some(&self.dimensions[i]);
            }
            i = i + 1;
        }
        None
    }

    /// The position of the first dimension with this name.
    pub fn get_dimension_index(&self, name: &str) -> (r: Option<usize>)
        ensures
            r is Some <==> has_dim(self@, name@),
            r matches Some(i) ==> {
                &&& 0 <= i < self@.dimensions.len()
                &&& self@.dimensions[i as int].name == name@
                &&& forall|j: int| 0 <= j < i ==> self@.dimensions[j].name != name@
            },
    {
        let needle: String = name.to_owned();
        let mut i: usize = 0;
        while i < self.dimensions.len()
            invariant
                needle@ == name@,
                i <= self@.dimensions.len(),
                forall|j: int| 0 <= j < i ==> self@.dimensions[j].name != name@,
            decreases self@.dimensions.len() - i,
        {
            if self.dimensions[i].name == needle {
                proof {
                    assert(self@.dimensions[i as int].name == name@);
                }
                return Some(i);
            }
            i = i + 1;
        }
        None
    }

    /// Records which dimension is active; the list itself is untouched.
    pub fn set_active(&mut self, name: Option<String>)
        ensures
            final(self)@ == (ConfigModel {
                active_dimension: name.deep_view(),
                ..old(self)@
            }),
    {
        self.active_dimension = name;
    }
}

proof fn lemma_remove_keeps_wf(pre: ConfigModel, post: ConfigModel, i: int)
    requires
        0 <= i < pre.dimensions.len(),
        post.dimensions == pre.dimensions.remove(i),
        config_wf(pre),
    ensures
        config_wf(post),
{
    assert forall|a: int, b: int|
        0 <= a < b < post.dimensions.len() implies post.dimensions[a].name
        != post.dimensions[b].name by {
        let a0 = if a < i { a } else { a + 1 };
        let b0 = if b < i { b } else { b + 1 };
        assert(pre.dimensions[a0].name != pre.dimensions[b0].name);
    }
}

} // verus!
