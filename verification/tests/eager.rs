use std::cell::Cell;
use std::cell::OnceCell;
use std::cell::RefCell;
use std::fmt;
use std::hash::Hash;
use std::hash::Hasher;
use std::mem::size_of;
use std::rc::Rc;

use self_cell::cells::Span;
use self_cell::unsafe_self_cell::JoinedCell;
use self_cell::unsafe_self_cell::OwnerAndCellDropGuard;
use self_cell::unsafe_self_cell::UnsafeSelfCell;

#[derive(Debug, Eq, PartialEq)]
pub struct Ast(pub Vec<String>);

fn ast_from(body: &String) -> Ast {
    Ast(vec![body[2..5].to_string(), body[1..3].to_string()])
}

struct PackedAstCell(UnsafeSelfCell<String, Ast>);

impl PackedAstCell {
    fn new(owner: String, dependent_builder: impl FnOnce(&String) -> Ast) -> Self {
        PackedAstCell(UnsafeSelfCell::new(owner, dependent_builder))
    }

    fn try_new<E>(
        owner: String,
        dependent_builder: impl FnOnce(&String) -> Result<Ast, E>,
    ) -> Result<Self, E> {
        UnsafeSelfCell::try_new(owner, dependent_builder).map(PackedAstCell)
    }

    fn try_new_or_recover<E>(
        owner: String,
        dependent_builder: impl FnOnce(&String) -> Result<Ast, E>,
    ) -> Result<Self, (String, E)> {
        UnsafeSelfCell::try_new_or_recover(owner, dependent_builder).map(PackedAstCell)
    }

    fn borrow_owner(&self) -> &String {
        self.0.borrow_owner()
    }

    fn borrow_dependent(&self) -> &Ast {
        self.0.borrow_dependent()
    }

    fn with_dependent<Ret>(&self, func: impl FnOnce(&String, &Ast) -> Ret) -> Ret {
        self.0.with_dependent(func)
    }

    fn with_dependent_mut<Ret>(&mut self, func: impl FnOnce(&String, &mut Ast) -> Ret) -> Ret {
        self.0.with_dependent_mut(func)
    }
}

impl fmt::Debug for PackedAstCell {
    fn fmt(&self, fmt: &mut fmt::Formatter) -> Result<(), fmt::Error> {
        self.with_dependent(|owner, dependent| {
            fmt.debug_struct("PackedAstCell")
                .field("owner", owner)
                .field("dependent", dependent)
                .finish()
        })
    }
}

impl PartialEq for PackedAstCell {
    fn eq(&self, other: &Self) -> bool {
        *self.borrow_owner() == *other.borrow_owner()
    }
}

impl Eq for PackedAstCell {}

impl Hash for PackedAstCell {
    fn hash<H: Hasher>(&self, state: &mut H) {
        self.borrow_owner().hash(state);
    }
}

impl Clone for PackedAstCell {
    fn clone(&self) -> Self {
        PackedAstCell(self.0.clone_with(ast_from))
    }
}

#[derive(Clone, Debug, Eq, PartialEq, Hash)]
struct PackedAst {
    ast_cell: PackedAstCell,
}

impl PackedAst {
    fn new(body: String) -> Self {
        Self {
            ast_cell: PackedAstCell::new(body, ast_from),
        }
    }

    fn get_body(&self) -> &String {
        self.ast_cell.borrow_owner()
    }

    fn with_ast(&self, func: impl FnOnce(&String, &Ast)) {
        self.ast_cell.with_dependent(func)
    }

    fn get_ast(&self) -> &Ast {
        self.ast_cell.borrow_dependent()
    }
}

fn assert_with_ast(packed_ast: &PackedAst, expected_ast: &Ast) {
    let mut visited = false;
    packed_ast.with_ast(|_, ast| {
        assert_eq!(ast, expected_ast);
        visited = true;
    });
    assert!(visited);
}

#[test]
fn parse_ast() {
    let body = String::from("some longer string that ends now");

    let expected_ast = ast_from(&body);

    let packed_ast = PackedAst::new(body.clone());
    assert_eq!(packed_ast.get_body(), &body);
    assert_with_ast(&packed_ast, &expected_ast);
    assert_eq!(packed_ast.get_ast(), &expected_ast);

    assert_eq!(
        format!("{:?}", &packed_ast),
        "PackedAst { ast_cell: PackedAstCell { owner: \"some longer string that ends now\", dependent: Ast([\"me \", \"om\"]) } }"
    );

    let cloned_packed_ast = packed_ast.clone();
    assert_eq!(cloned_packed_ast.get_body(), &body);
    assert_with_ast(&cloned_packed_ast, &expected_ast);
    assert_eq!(cloned_packed_ast.get_ast(), &expected_ast);

    let moved_packed_ast = packed_ast;
    assert_eq!(moved_packed_ast.get_body(), &body);
    assert_with_ast(&moved_packed_ast, &expected_ast);
    assert_eq!(moved_packed_ast.get_ast(), &expected_ast);

    // The clone stays valid when the first cell has moved.
    assert_eq!(cloned_packed_ast.get_body(), &body);
    assert_with_ast(&cloned_packed_ast, &expected_ast);
    assert_eq!(cloned_packed_ast.get_ast(), &expected_ast);

    // The clone stays valid when the first cell is gone.
    drop(moved_packed_ast);
    assert_eq!(cloned_packed_ast.get_body(), &body);
    assert_with_ast(&cloned_packed_ast, &expected_ast);
    assert_eq!(cloned_packed_ast.get_ast(), &expected_ast);
}

#[test]
fn clone_rebuilds_dependent_in_memory_of_its_own() {
    let packed_ast = PackedAst::new(String::from("some longer string that ends now"));
    let cloned_packed_ast = packed_ast.clone();

    assert_eq!(packed_ast.get_ast().0, vec!["me ", "om"]);
    assert_eq!(cloned_packed_ast.get_ast().0, vec!["me ", "om"]);
    assert_eq!(packed_ast.get_ast(), cloned_packed_ast.get_ast());

    assert_ne!(
        packed_ast.get_body().as_ptr(),
        cloned_packed_ast.get_body().as_ptr()
    );
    for (word, cloned_word) in packed_ast
        .get_ast()
        .0
        .iter()
        .zip(cloned_packed_ast.get_ast().0.iter())
    {
        assert_ne!(word.as_ptr(), cloned_word.as_ptr());
    }
}

fn make_ast_with_stripped_body(body: &str) -> PackedAst {
    let stripped_body = body.replace('\n', "");
    PackedAst::new(stripped_body)
}

#[test]
fn self_cell_return_self_ref_struct() {
    let body = String::from("a\nb\nc\ndef");
    let expected_body = body.replace('\n', "");

    let expected_ast = ast_from(&expected_body);

    let packed_ast = make_ast_with_stripped_body(&body);
    assert_eq!(packed_ast.get_body(), &expected_body);
    assert_eq!(packed_ast.get_ast(), &expected_ast);
}

#[test]
fn failable_constructor_success() {
    let owner = String::from("This string is no trout");
    let expected_ast = ast_from(&owner);

    let ast_cell_result: Result<PackedAstCell, i32> =
        PackedAstCell::try_new(owner.clone(), |owner| Ok(ast_from(owner)));

    assert!(ast_cell_result.is_ok());

    let ast_cell = ast_cell_result.unwrap();
    assert_eq!(ast_cell.borrow_owner(), &owner);
    assert_eq!(ast_cell.borrow_dependent(), &expected_ast);
}

#[test]
fn failable_constructor_fail() {
    let owner = String::from("This string is no trout");

    let ast_cell_result: Result<PackedAstCell, i32> =
        PackedAstCell::try_new(owner.clone(), |_owner| Err(22));

    assert!(ast_cell_result.is_err());

    let err = ast_cell_result.unwrap_err();
    assert_eq!(err, 22);
}

#[test]
fn from_fn() {
    #[derive(Debug)]
    struct Dependent(String);

    let mut extra_outside_state = None;

    assert_eq!(extra_outside_state, None);

    let expected_str = "small pink bike";

    let fn_cell: UnsafeSelfCell<String, Dependent> =
        UnsafeSelfCell::new(expected_str.into(), |owner: &String| {
            // The builder runs once.
            extra_outside_state = if let Some(x) = extra_outside_state {
                Some(x + 5)
            } else {
                Some(66)
            };

            Dependent(owner.clone())
        });

    assert_eq!(extra_outside_state, Some(66));
    assert_eq!(fn_cell.borrow_owner(), expected_str);
    assert_eq!(fn_cell.borrow_dependent().0, expected_str);
    assert_eq!(extra_outside_state, Some(66));
}

#[test]
fn self_cell_no_derive_owner_type() {
    #[derive(Debug)]
    struct NoDerive(i32);

    #[derive(Debug)]
    struct Dependent(i32);

    let no_derive: UnsafeSelfCell<NoDerive, Dependent> =
        UnsafeSelfCell::new(NoDerive(22), |owner: &NoDerive| Dependent(owner.0));
    assert_eq!(no_derive.borrow_dependent().0, 22);
}

#[test]
fn self_cell_custom_drop() {
    #[derive(Debug, PartialEq, Eq)]
    struct Ref<T: fmt::Debug>(T);

    impl<T: fmt::Debug> Drop for Ref<T> {
        fn drop(&mut self) {
            println!("{:?}", self.0);
        }
    }

    #[derive(Debug, PartialEq, Eq, Clone)]
    enum Void {}

    type OV = Option<Vec<Void>>;

    let cell: UnsafeSelfCell<OV, Ref<OV>> = UnsafeSelfCell::new(None, |owner: &OV| Ref(owner.clone()));

    let expected_dependent = Ref::<OV>(None);

    assert_eq!(cell.borrow_dependent(), &expected_dependent);
}

#[derive(Debug, PartialEq, Eq)]
enum Dropped {
    Owner,
    Dependent,
}

struct LoggedOwner(Rc<RefCell<Vec<Dropped>>>);

struct LoggedDependent(Rc<RefCell<Vec<Dropped>>>);

impl Drop for LoggedOwner {
    fn drop(&mut self) {
        self.0.borrow_mut().push(Dropped::Owner)
    }
}

impl Drop for LoggedDependent {
    fn drop(&mut self) {
        self.0.borrow_mut().push(Dropped::Dependent)
    }
}

fn logged_cell(drops: &Rc<RefCell<Vec<Dropped>>>) -> UnsafeSelfCell<LoggedOwner, LoggedDependent> {
    UnsafeSelfCell::new(LoggedOwner(drops.clone()), |o: &LoggedOwner| {
        LoggedDependent(o.0.clone())
    })
}

#[test]
fn drop_order() {
    let drops: Rc<RefCell<Vec<Dropped>>> = <_>::default();
    let cell = logged_cell(&drops);
    drop(cell);
    assert_eq!(&drops.borrow()[..], &[Dropped::Dependent, Dropped::Owner]);
}

#[test]
fn drop_joined_destroys_dependent_first() {
    let drops: Rc<RefCell<Vec<Dropped>>> = <_>::default();
    let cell = logged_cell(&drops);
    cell.drop_joined();
    assert_eq!(&drops.borrow()[..], &[Dropped::Dependent, Dropped::Owner]);
}

#[test]
fn into_owner_destroys_dependent_and_keeps_owner() {
    let drops: Rc<RefCell<Vec<Dropped>>> = <_>::default();
    let cell = logged_cell(&drops);
    let owner = cell.into_owner();
    assert_eq!(&drops.borrow()[..], &[Dropped::Dependent]);
    drop(owner);
    assert_eq!(&drops.borrow()[..], &[Dropped::Dependent, Dropped::Owner]);
}

#[test]
fn failed_builder_destroys_owner_once() {
    let drops: Rc<RefCell<Vec<Dropped>>> = <_>::default();
    let res: Result<UnsafeSelfCell<LoggedOwner, LoggedDependent>, i32> =
        UnsafeSelfCell::try_new(LoggedOwner(drops.clone()), |_| Err(7));
    assert_eq!(res.err(), Some(7));
    assert_eq!(&drops.borrow()[..], &[Dropped::Owner]);
}

#[test]
fn recovered_owner_is_not_destroyed() {
    let drops: Rc<RefCell<Vec<Dropped>>> = <_>::default();
    let res: Result<UnsafeSelfCell<LoggedOwner, LoggedDependent>, (LoggedOwner, i32)> =
        UnsafeSelfCell::try_new_or_recover(LoggedOwner(drops.clone()), |_| Err(7));
    let (owner, err) = match res {
        Ok(_) => panic!("the builder failed"),
        Err(recovered) => recovered,
    };
    assert_eq!(err, 7);
    assert!(drops.borrow().is_empty());
    drop(owner);
    assert_eq!(&drops.borrow()[..], &[Dropped::Owner]);
}

#[test]
fn into_owner_drop_dependent_without_panic() {
    type O = Rc<Cell<Option<Box<u8>>>>;

    struct D(O);

    impl Drop for D {
        fn drop(&mut self) {
            self.0.take();
        }
    }

    let s: UnsafeSelfCell<O, D> =
        UnsafeSelfCell::new(Rc::new(Cell::new(Some(Box::new(42)))), |o: &O| D(o.clone()));
    assert!(s.into_owner().take().is_none());
}

#[test]
#[should_panic] // but should not leak or double-free
fn into_owner_drop_dependent_with_panic() {
    type O = Rc<Cell<Option<Box<u8>>>>;

    struct D(O);

    impl Drop for D {
        fn drop(&mut self) {
            self.0.take();
            panic!();
        }
    }

    let s: UnsafeSelfCell<O, D> =
        UnsafeSelfCell::new(Rc::new(Cell::new(Some(Box::new(42)))), |o: &O| D(o.clone()));
    s.into_owner();
}

#[test]
fn dependent_mutate() {
    let mut ast_cell = PackedAstCell::new("Egal in welchen Farben ihr den ..".into(), ast_from);

    assert_eq!(ast_cell.borrow_dependent().0.len(), 2);

    ast_cell.with_dependent_mut(|_, ast| {
        ast.0.clear();
    });

    assert_eq!(ast_cell.borrow_dependent().0.len(), 0);
}

#[test]
fn dependent_replace() {
    let before_input = String::from("Egal in welchen Farben ihr den ..");
    let before_ast_expected = ast_from(&before_input);

    let mut ast_cell = PackedAstCell::new(before_input.clone(), ast_from);

    assert_eq!(ast_cell.borrow_owner(), &before_input);
    assert_eq!(ast_cell.borrow_dependent(), &before_ast_expected);

    ast_cell.with_dependent_mut(|owner, ast| {
        *ast = Ast(vec![
            owner[0..2].to_string(),
            owner[0..3].to_string(),
            owner[5..9].to_string(),
        ]);
    });

    assert_eq!(ast_cell.borrow_dependent().0, vec!["Eg", "Ega", "in w"]);
    assert_eq!(ast_cell.borrow_owner(), &before_input);
}

#[test]
fn borrow_mut_hands_out_owner_and_dependent() {
    let mut cell: UnsafeSelfCell<String, usize> =
        UnsafeSelfCell::new(String::from("abc"), |o: &String| o.len());
    let (owner, dependent) = cell.borrow_mut();
    assert_eq!(owner, "abc");
    assert_eq!(*dependent, 3);
    *dependent = owner.len() + 1;
    assert_eq!(*cell.borrow_dependent(), 4);
    assert_eq!(cell.borrow_owner(), "abc");
}

#[test]
fn try_new_or_recover() {
    let original_input = String::from("Ein See aus SchweiÃŸ ..");

    // bad path
    let (input, err) = PackedAstCell::try_new_or_recover(original_input.clone(), |_| Err(-1))
        .unwrap_err();

    assert_eq!(original_input, input);
    assert_eq!(err, -1);

    // happy path
    let cell = PackedAstCell::try_new_or_recover(original_input.clone(), |o| -> Result<_, ()> {
        Ok(ast_from(o))
    })
    .unwrap();
    assert_eq!(cell.borrow_owner(), &original_input);
    assert_eq!(cell.borrow_dependent(), &ast_from(&original_input));
}

#[test]
fn into_owner() {
    let expected_body = Rc::new(String::from("Endless joy for you never 2"));

    let expected_ast = ast_from(&expected_body);

    let ast_cell: UnsafeSelfCell<Rc<String>, Ast> =
        UnsafeSelfCell::new(Rc::clone(&expected_body), |s: &Rc<String>| ast_from(s));
    assert_eq!(ast_cell.borrow_owner(), &expected_body);
    assert_eq!(ast_cell.borrow_dependent(), &expected_ast);

    let body_recovered: Rc<String> = ast_cell.into_owner();
    assert_eq!(&body_recovered, &expected_body);
    assert_eq!(Rc::strong_count(&expected_body), 2);
}

#[test]
fn nested_cells() {
    type ChildCell = UnsafeSelfCell<Rc<String>, Ast>;
    type ParentCell = UnsafeSelfCell<Rc<String>, ChildCell>;

    let parent_owner_expected = Rc::new(String::from("some string it is"));
    let ast_expected = ast_from(&parent_owner_expected);

    let parent_cell: ParentCell =
        UnsafeSelfCell::new(parent_owner_expected.clone(), |parent: &Rc<String>| {
            UnsafeSelfCell::new(parent.clone(), |child: &Rc<String>| ast_from(child))
        });

    assert_eq!(parent_cell.borrow_owner(), &parent_owner_expected);

    let child_cell = parent_cell.borrow_dependent();
    assert_eq!(child_cell.borrow_owner(), &parent_owner_expected);
    assert_eq!(child_cell.borrow_dependent(), &ast_expected);
}

#[test]
fn debug_impl() {
    let ast_cell = PackedAstCell::new("xyz, abv".into(), ast_from);

    assert_eq!(
        format!("{:?}", &ast_cell),
        "PackedAstCell { owner: \"xyz, abv\", dependent: Ast([\"z, \", \"yz\"]) }"
    );

    let hash_fmt = r#"PackedAstCell {
    owner: "xyz, abv",
    dependent: Ast(
        [
            "z, ",
            "yz",
        ],
    ),
}"#;

    assert_eq!(format!("{:#?}", ast_cell), hash_fmt);
}

#[test]
fn lazy_ast() {
    #[derive(Debug)]
    struct LazyAst(OnceCell<Ast>);

    type LazyAstCell = UnsafeSelfCell<String, LazyAst>;

    let body = String::from("How thou shall not see what trouts shall see");

    let expected_ast = ast_from(&body);

    let lazy_ast: LazyAstCell = UnsafeSelfCell::new(body.clone(), |_: &String| LazyAst(OnceCell::new()));
    assert_eq!(lazy_ast.borrow_owner(), &body);
    lazy_ast.with_dependent(|owner: &String, dependent: &LazyAst| {
        assert_eq!(owner, &body);
        assert!(dependent.0.get().is_none());
    });

    lazy_ast.with_dependent(|owner: &String, dependent: &LazyAst| {
        assert_eq!(owner, &body);
        assert_eq!(dependent.0.get_or_init(|| ast_from(owner)), &expected_ast);
    });

    lazy_ast.with_dependent(|owner: &String, dependent: &LazyAst| {
        assert_eq!(owner, &body);
        assert!(dependent.0.get().is_some());
        assert_eq!(dependent.0.get_or_init(|| ast_from(owner)), &expected_ast);
    });
}

#[test]
fn cell_mem_size() {
    assert_eq!(size_of::<PackedAstCell>(), size_of::<&u8>());
    assert_eq!(size_of::<Option<PackedAstCell>>(), size_of::<&u8>());
}

const SCRATCH_REGION: [u8; 4096] = [0u8; 4096];

#[derive(Eq, PartialEq)]
struct StaticString {
    region: &'static [u8],
}

const MAX_NODES: usize = 8;

#[derive(Eq, PartialEq)]
struct NodeAst([Option<Span>; MAX_NODES]);

type NodeAstCell = UnsafeSelfCell<StaticString, NodeAst>;

fn build_ast_cell() -> NodeAstCell {
    let pre_processed_code = StaticString {
        region: &SCRATCH_REGION[4000..4015],
    };

    UnsafeSelfCell::new(pre_processed_code, |code: &StaticString| {
        let mut ast_nodes = [None; MAX_NODES];
        assert!(7 <= code.region.len());
        ast_nodes[0] = Some(Span { start: 3, end: 7 });
        assert!(12 <= code.region.len());
        ast_nodes[1] = Some(Span { start: 10, end: 12 });

        NodeAst(ast_nodes)
    })
}

#[test]
fn self_cell_works_in_no_std_env() {
    let ast_cell = build_ast_cell();
    assert_eq!(ast_cell.borrow_owner().region.len(), 15);
    assert_eq!(
        ast_cell
            .borrow_dependent()
            .0
            .iter()
            .filter(|val| val.is_some())
            .count(),
        2
    );
}

#[test]
fn guard_joins_or_gives_the_owner_back() {
    let guard: OwnerAndCellDropGuard<String, usize> = OwnerAndCellDropGuard::new(String::from("ab"));
    assert_eq!(guard.borrow_owner(), "ab");
    let len = guard.borrow_owner().len();
    let joined: JoinedCell<String, usize> = guard.join(len);
    assert_eq!(joined.owner, "ab");
    assert_eq!(joined.dependent, 2);

    let cell = UnsafeSelfCell::from_joined(joined);
    assert_eq!(cell.borrow_owner(), "ab");
    assert_eq!(*cell.borrow_dependent(), 2);

    let guard: OwnerAndCellDropGuard<String, usize> = OwnerAndCellDropGuard::new(String::from("cd"));
    assert_eq!(guard.into_owner(), "cd");
}
